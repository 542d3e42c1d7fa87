//! Properties of the registry as a whole: what every operation keeps, and what
//! sequences of operations give.
use vstd::prelude::*;

use crate::fees::{fee_bps, lemma_fee_bps_bounded_and_monotonic, lemma_floor_sum};
use crate::ledger::{
    entry_sum, last_index_of, lemma_entry_sum_ext, lemma_entry_sum_nonneg, lemma_entry_sum_push,
    lemma_entry_sum_update, lemma_entry_sum_zero, lemma_last_index_of_spec, lemma_stake_set,
    lemma_participants, lemma_participants_after_set, participants,
    side_amount, side_fn, side_total, stake_lookup, stake_set, StakeEntry, StakeKey,
};
use crate::model::{
    call_consistent, dividend_payments, dividend_share, empty_registry, gas_fee, owed, owed_fn,
    paid_total, payout_amount, pool, share_fits, shares_fit, surge_fee, total_owed,
    unclaimed_winners, weight_sum, Operation, RegistryView,
};
use crate::types::{Addr, CreateCallMetadata, Effect, Event, RegistryError};

verus! {

/// Writing under key `k` changes a sum over the ledger by the written entry's term,
/// less the term of the entry it replaces.
proof fn lemma_sum_after_set(s: Seq<StakeEntry>, k: StakeKey, a: i128, f: spec_fn(StakeEntry) -> int)
    ensures
        entry_sum(stake_set(s, k, a), f) == entry_sum(s, f) - (if last_index_of(s, k) >= 0 {
            f(s[last_index_of(s, k)])
        } else {
            0
        }) + f(StakeEntry { key: k, amount: a }),
{
    lemma_last_index_of_spec(s, k);
    let i = last_index_of(s, k);
    if i < 0 {
        lemma_entry_sum_push(s, StakeEntry { key: k, amount: a }, f);
    } else {
        lemma_entry_sum_update(s, i, StakeEntry { key: k, amount: a }, f);
    }
}

/// A side of a call that the written key does not belong to keeps its total.
proof fn lemma_side_total_after_set(s: Seq<StakeEntry>, k: StakeKey, a: i128, c: int, p: bool)
    ensures
        side_total(stake_set(s, k, a), c, p) == side_total(s, c, p) + (if k.call_id == c && k.position
            == p {
            a - (match stake_lookup(s, k) {
                Some(x) => x as int,
                None => 0,
            })
        } else {
            0
        }),
{
    lemma_last_index_of_spec(s, k);
    lemma_sum_after_set(s, k, a, side_fn(c, p));
}

/// In a valid registry, every entry on a call's side counts toward that side's total,
/// and the total is not negative.
proof fn lemma_side_total_bounds(s: Seq<StakeEntry>, c: int, p: bool)
    requires
        forall|i: int| 0 <= i < s.len() ==> (#[trigger] s[i]).amount >= 0,
    ensures
        side_total(s, c, p) >= 0,
        forall|i: int|
            0 <= i < s.len() ==> side_amount(#[trigger] s[i], c, p) <= side_total(s, c, p),
{
    let f = side_fn(c, p);
    assert forall|i: int| 0 <= i < s.len() implies f(#[trigger] s[i]) >= 0 by {}
    lemma_entry_sum_nonneg(s, f);
    assert forall|i: int| 0 <= i < s.len() implies side_amount(#[trigger] s[i], c, p) <= side_total(s, c, p) by {
        assert(f(s[i]) <= entry_sum(s, f));
    }
}

/// The payouts owed to a side never exceed that side's stakes plus the whole
/// opposing pool, however the rounding falls.
proof fn lemma_owed_bound(s: Seq<StakeEntry>, c: int, o: bool, w: int, l: int)
    requires
        w > 0,
        l >= 0,
        forall|i: int| 0 <= i < s.len() ==> (#[trigger] s[i]).amount >= 0,
    ensures
        total_owed(s, c, o, w, l) <= side_total(s, c, o) + (side_total(s, c, o) * l) / w,
    decreases s.len(),
{
    if s.len() > 0 {
        let t = s.drop_last();
        assert forall|i: int| 0 <= i < t.len() implies (#[trigger] t[i]).amount >= 0 by {
            assert(t[i] == s[i]);
        }
        lemma_owed_bound(t, c, o, w, l);
        lemma_side_total_bounds(t, c, o);
        let st = side_total(t, c, o);
        let e = s.last();
        assert(e.amount >= 0);
        let a = side_amount(e, c, o);
        assert(side_total(s, c, o) == st + a);
        assert(a >= 0);
        assert(st * l >= 0 && a * l >= 0) by (nonlinear_arith)
            requires
                st >= 0,
                a >= 0,
                l >= 0,
        ;
        lemma_floor_sum(st * l, a * l, w);
        assert((st + a) * l == st * l + a * l) by (nonlinear_arith);
        assert(owed(e, c, o, w, l) == a + (a * l) / w);
    }
}

/// A staker "joins" a call (has no entry on either side of it) exactly when they are
/// not yet among its participants.
proof fn lemma_joins_iff_new_participant(s: Seq<StakeEntry>, call_id: u64, staker: Addr)
    ensures
        (stake_lookup(s, StakeKey { call_id, user: staker, position: true }) is None
            && stake_lookup(s, StakeKey { call_id, user: staker, position: false }) is None)
            <==> !participants(s, call_id as int).contains(staker),
{
    let ky = StakeKey { call_id, user: staker, position: true };
    let kn = StakeKey { call_id, user: staker, position: false };
    lemma_last_index_of_spec(s, ky);
    lemma_last_index_of_spec(s, kn);
    lemma_participants(s, call_id as int);
    if participants(s, call_id as int).contains(staker) {
        let i = choose|i: int|
            0 <= i < s.len() && (#[trigger] s[i]).key.call_id == call_id as int && s[i].key.user == staker;
        if s[i].key.position {
            assert(s[i].key == ky);
        } else {
            assert(s[i].key == kn);
        }
    }
    if stake_lookup(s, ky) is Some {
        let i = last_index_of(s, ky);
        assert(s[i].key.call_id == call_id as int && s[i].key.user == staker);
    }
    if stake_lookup(s, kn) is Some {
        let i = last_index_of(s, kn);
        assert(s[i].key.call_id == call_id as int && s[i].key.user == staker);
    }
}

/// The payout of a winning stake is not negative.
proof fn lemma_payout_nonneg(a: int, w: int, l: int)
    requires
        a >= 0,
        w > 0,
        l >= 0,
    ensures
        payout_amount(a, w, l) >= a,
        payout_amount(0, w, l) == 0,
{
    assert(a * l >= 0) by (nonlinear_arith)
        requires
            a >= 0,
            l >= 0,
    ;
    assert(0 * l == 0);
    vstd::arithmetic::div_mod::lemma_div_pos_is_pos(a * l, w);
    vstd::arithmetic::div_mod::lemma_basic_div(0, w);
}

/// A freshly deployed registry is valid.
pub proof fn lemma_empty_registry_valid()
    ensures
        empty_registry().valid(),
{
}

/// Initializing, setting the vault, pausing and unpausing keep a valid registry valid.
pub proof fn lemma_admin_operations_preserve_valid(
    pre: RegistryView,
    admin: Addr,
    vault: Addr,
    paused: bool,
    signers: Seq<Addr>,
)
    requires
        pre.valid(),
    ensures
        pre.initialize(admin, signers) matches Ok(post) ==> post.valid(),
        pre.set_vault(vault, signers) matches Ok(post) ==> post.valid(),
        pre.clear_vault(signers) matches Ok(post) ==> post.valid(),
        pre.set_paused(paused, signers) matches Ok(post) ==> post.valid(),
{
}

/// Distributing dividends keeps a valid registry valid.
pub proof fn lemma_distribute_preserves_valid(
    pre: RegistryView,
    stake_token: Addr,
    holders: Seq<(Addr, i128)>,
    signers: Seq<Addr>,
)
    requires
        pre.valid(),
    ensures
        pre.distribute_dividends(stake_token, holders, signers) matches Ok((post, _)) ==> post.valid(),
{
}

/// Creating a call keeps a valid registry valid.
pub proof fn lemma_create_call_preserves_valid(
    pre: RegistryView,
    creator: Addr,
    stake_token: Addr,
    stake_amount: i128,
    end_ts: u64,
    metadata: CreateCallMetadata,
    now: u64,
    signers: Seq<Addr>,
)
    requires
        pre.valid(),
    ensures
        pre.create_call(creator, stake_token, stake_amount, end_ts, metadata, now, signers) matches Ok(
            (post, _, _),
        ) ==> post.valid(),
{
    if let Ok((post, id, _)) = pre.create_call(
        creator,
        stake_token,
        stake_amount,
        end_ts,
        metadata,
        now,
        signers,
    ) {
        let s = pre.stakes;
        let n = pre.calls.len() as int;
        let k = StakeKey { call_id: id, user: creator, position: true };
        lemma_last_index_of_spec(s, k);
        assert(last_index_of(s, k) < 0) by {
            if last_index_of(s, k) >= 0 {
                assert(s[last_index_of(s, k)].key.call_id < n);
            }
        }
        let e = StakeEntry { key: k, amount: stake_amount };
        assert(post.stakes == s.push(e));
        lemma_stake_set(s, k, stake_amount, k);
        assert forall|i: int| 0 <= i < post.stakes.len() implies (#[trigger] post.stakes[i]).key.call_id
            < post.calls.len() && post.stakes[i].amount >= 0 by {
            if i < s.len() {
                assert(post.stakes[i] == s[i]);
            }
        }
        assert forall|c: int| 0 <= c < post.calls.len() implies call_consistent(
            #[trigger] post.calls[c],
            post.stakes,
            c,
        ) by {
            lemma_side_total_after_set(s, k, stake_amount, c, true);
            lemma_side_total_after_set(s, k, stake_amount, c, false);
            lemma_participants_after_set(s, k, stake_amount, c);
            if c < n {
                assert(post.calls[c] == pre.calls[c]);
                assert(call_consistent(pre.calls[c], s, c));
                if pre.calls[c].settled {
                    let call = pre.calls[c];
                    let f = owed_fn(c, call.outcome, pool(call, call.outcome), pool(call, !call.outcome));
                    lemma_entry_sum_push(s, e, f);
                }
            } else {
                assert(c == n);
                let f = side_fn(c, true);
                let g = side_fn(c, false);
                assert forall|j: int| 0 <= j < s.len() implies f(#[trigger] s[j]) == 0 by {}
                assert forall|j: int| 0 <= j < s.len() implies g(#[trigger] s[j]) == 0 by {}
                lemma_entry_sum_zero(s, f);
                lemma_entry_sum_zero(s, g);
                lemma_participants(s, c);
                assert(participants(s, c) =~= Set::<Addr>::empty()) by {
                    assert forall|u: Addr| !participants(s, c).contains(u) by {
                        if participants(s, c).contains(u) {
                            let i = choose|i: int|
                                0 <= i < s.len() && (#[trigger] s[i]).key.call_id == c && s[i].key.user == u;
                            assert(s[i].key.call_id < n);
                        }
                    }
                }
                assert(Set::<Addr>::empty().insert(creator).len() == 1);
            }
        }
    }
}

/// Staking keeps a valid registry valid.
pub proof fn lemma_stake_preserves_valid(
    pre: RegistryView,
    call_id: u64,
    staker: Addr,
    amount: i128,
    position: bool,
    now: u64,
    signers: Seq<Addr>,
)
    requires
        pre.valid(),
    ensures
        pre.stake_on_call(call_id, staker, amount, position, now, signers) matches Ok((post, _))
            ==> post.valid(),
{
    if let Ok((post, _)) = pre.stake_on_call(call_id, staker, amount, position, now, signers) {
        let s = pre.stakes;
        let c0 = call_id as int;
        let call = pre.calls[c0];
        let k = StakeKey { call_id, user: staker, position };
        let bps = fee_bps(call.participant_count as int);
        lemma_fee_bps_bounded_and_monotonic(call.participant_count as int, call.participant_count as int);
        let fee = surge_fee(amount as int, bps);
        assert(0 <= fee <= amount) by (nonlinear_arith)
            requires
                fee == (amount * bps) / 10_000,
                amount > 0,
                50 <= bps <= 200,
        ;
        let net = amount - fee;
        let cur = pre.user_stake(call_id, staker, position);
        lemma_last_index_of_spec(s, k);
        if last_index_of(s, k) >= 0 {
            assert(cur == s[last_index_of(s, k)].amount);
        }
        assert(cur >= 0);
        lemma_stake_set(s, k, (cur + net) as i128, k);
        assert forall|i: int| 0 <= i < post.stakes.len() implies (#[trigger] post.stakes[i]).key.call_id
            < post.calls.len() && post.stakes[i].amount >= 0 by {
            let li = last_index_of(s, k);
            if i < s.len() && i != li {
                assert(post.stakes[i] == s[i]);
            }
        }
        assert forall|c: int| 0 <= c < post.calls.len() implies call_consistent(
            #[trigger] post.calls[c],
            post.stakes,
            c,
        ) by {
            lemma_side_total_after_set(s, k, (cur + net) as i128, c, true);
            lemma_side_total_after_set(s, k, (cur + net) as i128, c, false);
            lemma_participants_after_set(s, k, (cur + net) as i128, c);
            lemma_participants(s, c);
            assert(call_consistent(pre.calls[c], s, c));
            if c == c0 {
                lemma_joins_iff_new_participant(s, call_id, staker);
            }
            if c != c0 {
                assert(post.calls[c] == pre.calls[c]);
                if pre.calls[c].settled {
                    let cc = pre.calls[c];
                    let f = owed_fn(c, cc.outcome, pool(cc, cc.outcome), pool(cc, !cc.outcome));
                    lemma_sum_after_set(s, k, (cur + net) as i128, f);
                }
            }
        }
    }
}

/// Withdrawing a payout keeps a valid registry valid.
pub proof fn lemma_withdraw_preserves_valid(
    pre: RegistryView,
    call_id: u64,
    user: Addr,
    position: bool,
    signers: Seq<Addr>,
)
    requires
        pre.valid(),
    ensures
        pre.withdraw_payout(call_id, user, position, signers) matches Ok((post, _)) ==> post.valid(),
{
    if let Ok((post, _)) = pre.withdraw_payout(call_id, user, position, signers) {
        let s = pre.stakes;
        let c0 = call_id as int;
        let call = pre.calls[c0];
        let k = StakeKey { call_id, user, position };
        lemma_last_index_of_spec(s, k);
        let i0 = last_index_of(s, k);
        let a = s[i0].amount;
        assert(call_consistent(call, s, c0));
        let w = pool(call, position);
        let l = pool(call, !position);
        lemma_side_total_bounds(s, c0, position);
        assert(side_amount(s[i0], c0, position) == a);
        assert(0 < a <= w);
        lemma_payout_nonneg(a as int, w, l);
        lemma_stake_set(s, k, 0, k);
        assert(post.stakes == s.update(i0, StakeEntry { key: k, amount: 0 }));
        assert forall|i: int| 0 <= i < post.stakes.len() implies (#[trigger] post.stakes[i]).key.call_id
            < post.calls.len() && post.stakes[i].amount >= 0 by {
            if i != i0 {
                assert(post.stakes[i] == s[i]);
            }
        }
        assert forall|c: int| 0 <= c < post.calls.len() implies call_consistent(
            #[trigger] post.calls[c],
            post.stakes,
            c,
        ) by {
            lemma_side_total_after_set(s, k, 0, c, true);
            lemma_side_total_after_set(s, k, 0, c, false);
            lemma_participants_after_set(s, k, 0, c);
            lemma_participants(s, c);
            if c == c0 {
                assert(participants(s, c).contains(user));
                assert(participants(s, c).insert(user) =~= participants(s, c));
            }
            assert(call_consistent(pre.calls[c], s, c));
            let cc = pre.calls[c];
            let f = owed_fn(c, cc.outcome, pool(cc, cc.outcome), pool(cc, !cc.outcome));
            lemma_sum_after_set(s, k, 0, f);
            if c != c0 {
                assert(post.calls[c] == pre.calls[c]);
            } else {
                assert(f(s[i0]) == payout_amount(a as int, w, l));
                assert(f(StakeEntry { key: k, amount: 0 }) == 0);
            }
        }
    }
}

/// Finalizing a call keeps a valid registry valid: the winners' payouts, rounded
/// down, fit in what the call holds once the gas fee is paid.
pub proof fn lemma_finalize_preserves_valid(
    pre: RegistryView,
    call_id: u64,
    outcome: bool,
    final_price: i128,
    caller: Addr,
    now: u64,
    signers: Seq<Addr>,
)
    requires
        pre.valid(),
    ensures
        pre.finalize_call(call_id, outcome, final_price, caller, now, signers) matches Ok((post, _))
            ==> post.valid(),
{
    if let Ok((post, _)) = pre.finalize_call(call_id, outcome, final_price, caller, now, signers) {
        let s = pre.stakes;
        let c0 = call_id as int;
        let call = pre.calls[c0];
        assert(call_consistent(call, s, c0));
        let w = pool(call, outcome);
        let l0 = pool(call, !outcome);
        let gas = gas_fee(l0);
        assert(0 <= gas <= l0) by (nonlinear_arith)
            requires
                l0 >= 0,
                gas == (l0 * 5) / 1000,
        ;
        let newc = post.calls[c0];
        let l = pool(newc, !outcome);
        assert(pool(newc, outcome) == w);
        assert(newc.vault_balance == w + l);
        assert(l >= 0);
        assert(side_total(s, c0, outcome) == w);
        assert(total_owed(s, c0, outcome, w, l) <= w + l) by {
            lemma_side_total_bounds(s, c0, outcome);
            if w > 0 {
                lemma_owed_bound(s, c0, outcome, w, l);
                vstd::arithmetic::div_mod::lemma_div_multiples_vanish(l, w);
                assert(w * l == l * w) by (nonlinear_arith);
            } else {
                let f = owed_fn(c0, outcome, w, l);
                let g = side_fn(c0, outcome);
                assert forall|j: int| 0 <= j < s.len() implies f(#[trigger] s[j]) == g(s[j]) by {
                    assert(side_amount(s[j], c0, outcome) <= side_total(s, c0, outcome));
                }
                lemma_entry_sum_ext(s, f, g);
            }
        }
        assert forall|c: int| 0 <= c < post.calls.len() implies call_consistent(
            #[trigger] post.calls[c],
            post.stakes,
            c,
        ) by {
            if c != c0 {
                assert(post.calls[c] == pre.calls[c]);
                assert(call_consistent(pre.calls[c], s, c));
            }
        }
    }
}

/// In a valid registry every call can meet what it owes: its vault balance is not
/// negative, and once it is settled, each unclaimed winning stake sits on a side with
/// a positive pool and its payout fits within the call's vault balance.
pub proof fn lemma_valid_registry_is_solvent(v: RegistryView, c: int)
    requires
        v.valid(),
        0 <= c < v.calls.len(),
    ensures
        v.calls[c].vault_balance >= 0,
        v.calls[c].settled ==> forall|i: int|
            0 <= i < v.stakes.len() && (#[trigger] v.stakes[i]).key.call_id == c
                && v.stakes[i].key.position == v.calls[c].outcome && v.stakes[i].amount > 0 ==> {
                &&& pool(v.calls[c], v.calls[c].outcome) > 0
                &&& payout_amount(
                    v.stakes[i].amount as int,
                    pool(v.calls[c], v.calls[c].outcome),
                    pool(v.calls[c], !v.calls[c].outcome),
                ) <= v.calls[c].vault_balance
            },
{
    let call = v.calls[c];
    let s = v.stakes;
    assert(call_consistent(call, s, c));
    if call.settled {
        let w = pool(call, call.outcome);
        let l = pool(call, !call.outcome);
        let f = owed_fn(c, call.outcome, w, l);
        lemma_side_total_bounds(s, c, call.outcome);
        assert forall|i: int| 0 <= i < s.len() implies f(#[trigger] s[i]) >= 0 by {
            if s[i].key.call_id == c && s[i].key.position == call.outcome && w > 0 {
                lemma_payout_nonneg(s[i].amount as int, w, l);
            }
        }
        lemma_entry_sum_nonneg(s, f);
        assert forall|i: int|
            0 <= i < s.len() && (#[trigger] s[i]).key.call_id == c && s[i].key.position == call.outcome
                && s[i].amount > 0 implies w > 0 && payout_amount(s[i].amount as int, w, l)
            <= call.vault_balance by {
            assert(side_amount(s[i], c, call.outcome) == s[i].amount);
            assert(f(s[i]) <= entry_sum(s, f));
        }
    }
}

/// While the registry is paused, no call can be created and no stake placed.
pub proof fn lemma_paused_blocks_new_stakes(
    pre: RegistryView,
    creator: Addr,
    stake_token: Addr,
    stake_amount: i128,
    end_ts: u64,
    metadata: CreateCallMetadata,
    call_id: u64,
    amount: i128,
    position: bool,
    now: u64,
    signers: Seq<Addr>,
)
    requires
        pre.paused,
    ensures
        pre.create_call(creator, stake_token, stake_amount, end_ts, metadata, now, signers) == Err::<
            (RegistryView, u64, Seq<Effect>),
            RegistryError,
        >(RegistryError::Paused),
        pre.stake_on_call(call_id, creator, amount, position, now, signers) == Err::<
            (RegistryView, Seq<Effect>),
            RegistryError,
        >(RegistryError::Paused),
{
}

/// Only the admin can pause, unpause, set the vault or distribute dividends: where
/// the admin did not authorise the operation it is refused.
pub proof fn lemma_admin_only(
    pre: RegistryView,
    paused: bool,
    vault: Addr,
    stake_token: Addr,
    holders: Seq<(Addr, i128)>,
    signers: Seq<Addr>,
)
    requires
        pre.admin is Some,
        !signers.contains(pre.admin->0),
    ensures
        pre.set_paused(paused, signers) == Err::<RegistryView, RegistryError>(RegistryError::Unauthorized),
        pre.set_vault(vault, signers) == Err::<RegistryView, RegistryError>(RegistryError::Unauthorized),
        pre.distribute_dividends(stake_token, holders, signers) == Err::<
            (RegistryView, Seq<Effect>),
            RegistryError,
        >(RegistryError::Unauthorized),
{
}

/// A registry is initialized at most once: afterwards its admin is set, it is not
/// paused, and every further initialization is refused.
pub proof fn lemma_initialize_once(pre: RegistryView, admin: Addr, signers: Seq<Addr>, other: Addr, others: Seq<Addr>)
    requires
        pre.initialize(admin, signers) is Ok,
    ensures
        pre.initialize(admin, signers)->Ok_0.admin == Some(admin),
        !pre.initialize(admin, signers)->Ok_0.paused,
        pre.initialize(admin, signers)->Ok_0.initialize(other, others) == Err::<RegistryView, RegistryError>(
            RegistryError::AlreadyInitialized,
        ),
{
}

/// Pausing then unpausing, both authorised by the admin, gives back the registry as it
/// was before, where it was not paused; while paused, `get_is_paused` says so.
pub proof fn lemma_pause_unpause_round_trip(pre: RegistryView, signers: Seq<Addr>)
    requires
        pre.set_paused(true, signers) is Ok,
        !pre.paused,
    ensures
        pre.set_paused(true, signers)->Ok_0.paused,
        pre.set_paused(true, signers)->Ok_0.set_paused(false, signers) == Ok::<RegistryView, RegistryError>(
            pre,
        ),
{
    let mid = pre.set_paused(true, signers)->Ok_0;
    assert(mid.set_paused(false, signers)->Ok_0 =~= pre);
}

/// A created call gets the next id and is stored as given, with the creator's stake
/// on "yes" as its only stake, one participant, and the whole stake in its vault
/// balance; the creator's stake is recorded and collected; earlier calls are untouched.
pub proof fn lemma_create_call_records(
    pre: RegistryView,
    creator: Addr,
    stake_token: Addr,
    stake_amount: i128,
    end_ts: u64,
    metadata: CreateCallMetadata,
    now: u64,
    signers: Seq<Addr>,
)
    ensures
        pre.create_call(creator, stake_token, stake_amount, end_ts, metadata, now, signers) is Ok
            <==> (!pre.paused && signers.contains(creator) && now < end_ts && stake_amount > 0
            && pre.calls.len() < u64::MAX),
        pre.create_call(creator, stake_token, stake_amount, end_ts, metadata, now, signers) is Ok ==> ({
            let (post, id, effects) = pre.create_call(
                creator,
                stake_token,
                stake_amount,
                end_ts,
                metadata,
                now,
                signers,
            )->Ok_0;
            &&& id == pre.calls.len()
            &&& post.calls.len() == pre.calls.len() + 1
            &&& post.calls.take(pre.calls.len() as int) == pre.calls
            &&& post.calls[id as int].creator == creator
            &&& post.calls[id as int].stake_token == stake_token
            &&& post.calls[id as int].total_stake_yes == stake_amount
            &&& post.calls[id as int].total_stake_no == 0
            &&& post.calls[id as int].participant_count == 1
            &&& post.calls[id as int].vault_balance == stake_amount
            &&& !post.calls[id as int].settled
            &&& !post.calls[id as int].outcome
            &&& post.calls[id as int].final_price == 0
            &&& post.calls[id as int].start_ts == now
            &&& post.calls[id as int].end_ts == end_ts
            &&& post.calls[id as int].token_address == metadata.token_address
            &&& post.calls[id as int].pair_id == metadata.pair_id
            &&& post.calls[id as int].ipfs_cid == metadata.ipfs_cid
            &&& post.user_stake(id, creator, true) == stake_amount
            &&& effects[0] == Effect::Collect { token: stake_token, from: creator, amount: stake_amount }
            &&& effects.last() == Effect::Emit(
                Event::CallCreated {
                    call_id: id,
                    creator,
                    stake_token,
                    stake_amount,
                    start_ts: now,
                    end_ts,
                    token_address: metadata.token_address,
                    pair_id: metadata.pair_id,
                    ipfs_cid: metadata.ipfs_cid,
                },
            )
            &&& match pre.vault {
                Some(v) => effects.len() == 3 && effects[1] == Effect::VaultDeposit {
                    vault: v,
                    token: stake_token,
                    amount: stake_amount,
                },
                None => effects.len() == 2,
            }
        }),
{
    if pre.create_call(creator, stake_token, stake_amount, end_ts, metadata, now, signers) is Err {
        return;
    }
    let (post, id, effects) = pre.create_call(
        creator,
        stake_token,
        stake_amount,
        end_ts,
        metadata,
        now,
        signers,
    )->Ok_0;
    lemma_stake_set(pre.stakes, StakeKey { call_id: id, user: creator, position: true }, stake_amount, StakeKey { call_id: id, user: creator, position: true });
    assert(post.calls.take(pre.calls.len() as int) =~= pre.calls);
}

/// A stake splits into the surge fee, which joins the platform fees, and the net
/// amount, which joins the chosen side's pool, the call's vault balance and the
/// staker's stake; the fee is at most 2 % of the stake; no other stake changes.
pub proof fn lemma_stake_accounting(
    pre: RegistryView,
    call_id: u64,
    staker: Addr,
    amount: i128,
    position: bool,
    now: u64,
    signers: Seq<Addr>,
    other_user: Addr,
    other_position: bool,
)
    requires
        pre.stake_on_call(call_id, staker, amount, position, now, signers) is Ok,
    ensures
        ({
            let post = pre.stake_on_call(call_id, staker, amount, position, now, signers)->Ok_0.0;
            let call = pre.calls[call_id as int];
            let fee = surge_fee(amount as int, fee_bps(call.participant_count as int));
            let net = amount - fee;
            &&& 0 <= fee <= (amount * 2) / 100
            &&& fee + net == amount
            &&& post.platform_fees == pre.platform_fees + fee
            &&& pool(post.calls[call_id as int], position) == pool(call, position) + net
            &&& pool(post.calls[call_id as int], !position) == pool(call, !position)
            &&& post.calls[call_id as int].vault_balance == call.vault_balance + net
            &&& post.user_stake(call_id, staker, position) == pre.user_stake(call_id, staker, position) + net
            &&& (other_user != staker || other_position != position) ==> post.user_stake(
                call_id,
                other_user,
                other_position,
            ) == pre.user_stake(call_id, other_user, other_position)
        }),
{
    let call = pre.calls[call_id as int];
    let bps = fee_bps(call.participant_count as int);
    lemma_fee_bps_bounded_and_monotonic(call.participant_count as int, call.participant_count as int);
    let fee = surge_fee(amount as int, bps);
    assert(0 <= fee <= (amount * 2) / 100) by (nonlinear_arith)
        requires
            fee == (amount * bps) / 10_000,
            amount > 0,
            50 <= bps <= 200,
    ;
    let k = StakeKey { call_id, user: staker, position };
    let cur = pre.user_stake(call_id, staker, position);
    let net = amount - fee;
    lemma_stake_set(pre.stakes, k, (cur + net) as i128, StakeKey { call_id, user: other_user, position: other_position });
}

/// A payout is withdrawn once: afterwards the stake is cleared and a second
/// withdrawal is refused with `NothingToWithdraw`.
pub proof fn lemma_withdraw_once(pre: RegistryView, call_id: u64, user: Addr, position: bool, signers: Seq<Addr>)
    requires
        pre.withdraw_payout(call_id, user, position, signers) is Ok,
    ensures
        ({
            let post = pre.withdraw_payout(call_id, user, position, signers)->Ok_0.0;
            &&& post.user_stake(call_id, user, position) == 0
            &&& post.withdraw_payout(call_id, user, position, signers) == Err::<
                (RegistryView, Seq<Effect>),
                RegistryError,
            >(RegistryError::NothingToWithdraw)
        }),
{
    let k = StakeKey { call_id, user, position };
    lemma_stake_set(pre.stakes, k, 0, k);
}

/// A call is settled once: afterwards it is settled with the given outcome and price,
/// further finalization is refused with `CallAlreadySettled`, and staking on it is refused.
pub proof fn lemma_finalize_once(
    pre: RegistryView,
    call_id: u64,
    outcome: bool,
    final_price: i128,
    caller: Addr,
    now: u64,
    signers: Seq<Addr>,
    outcome2: bool,
    final_price2: i128,
    caller2: Addr,
    now2: u64,
    signers2: Seq<Addr>,
    staker: Addr,
    amount: i128,
    position: bool,
)
    requires
        pre.finalize_call(call_id, outcome, final_price, caller, now, signers) is Ok,
        signers2.contains(caller2),
        signers2.contains(staker),
        !pre.paused,
    ensures
        ({
            let post = pre.finalize_call(call_id, outcome, final_price, caller, now, signers)->Ok_0.0;
            &&& post.calls[call_id as int].settled
            &&& post.calls[call_id as int].outcome == outcome
            &&& post.calls[call_id as int].final_price == final_price
            &&& post.finalize_call(call_id, outcome2, final_price2, caller2, now2, signers2) == Err::<
                (RegistryView, Seq<Effect>),
                RegistryError,
            >(RegistryError::CallAlreadySettled)
            &&& post.stake_on_call(call_id, staker, amount, position, now2, signers2) is Err
        }),
{
}

/// Sum of the dividend payments over a prefix of non-negative weights is at most the
/// fees times that prefix's weight over the total weight, rounded down.
proof fn lemma_dividends_bounded(holders: Seq<(Addr, i128)>, token: Addr, tf: int, tw: int)
    requires
        tf >= 0,
        tw > 0,
        forall|i: int| 0 <= i < holders.len() ==> (#[trigger] holders[i]).1 >= 0,
        shares_fit(holders, tf, tw),
    ensures
        weight_sum(holders) >= 0,
        0 <= paid_total(dividend_payments(holders, token, tf, tw)) <= (tf * weight_sum(holders)) / tw,
    decreases holders.len(),
{
    if holders.len() > 0 {
        let t = holders.drop_last();
        assert forall|i: int| 0 <= i < t.len() implies (#[trigger] t[i]).1 >= 0 by {
            assert(t[i] == holders[i]);
        }
        assert forall|i: int| 0 <= i < t.len() implies #[trigger] share_fits(t, i, tf, tw) by {
            assert(t[i] == holders[i]);
            assert(share_fits(holders, i, tf, tw));
        }
        lemma_dividends_bounded(t, token, tf, tw);
        let ws = weight_sum(t);
        let w = holders.last().1 as int;
        assert(w >= 0);
        assert(tf * ws >= 0 && tf * w >= 0) by (nonlinear_arith)
            requires
                tf >= 0,
                ws >= 0,
                w >= 0,
        ;
        lemma_floor_sum(tf * ws, tf * w, tw);
        assert(tf * (ws + w) == tf * ws + tf * w) by (nonlinear_arith);
        let share = dividend_share(tf, w, tw);
        assert(share == (tf * w) / tw);
        vstd::arithmetic::div_mod::lemma_div_pos_is_pos(tf * w, tw);
        let earlier = dividend_payments(t, token, tf, tw);
        assert(share_fits(holders, holders.len() - 1, tf, tw));
        if share > 0 {
            let pay = Effect::Pay { token, to: holders.last().0, amount: share as i128 };
            assert(earlier.push(pay).drop_last() =~= earlier);
        }
    }
}

/// Dividends never pay out more than the platform fees they distribute, where no
/// weight is negative; the fees are then reset to zero.
pub proof fn lemma_dividends_within_fees(
    pre: RegistryView,
    stake_token: Addr,
    holders: Seq<(Addr, i128)>,
    signers: Seq<Addr>,
)
    requires
        pre.valid(),
        forall|i: int| 0 <= i < holders.len() ==> (#[trigger] holders[i]).1 >= 0,
        pre.distribute_dividends(stake_token, holders, signers) is Ok,
    ensures
        ({
            let (post, effects) = pre.distribute_dividends(stake_token, holders, signers)->Ok_0;
            &&& post.platform_fees == 0
            &&& 0 <= paid_total(effects) <= pre.platform_fees
        }),
{
    let (post, effects) = pre.distribute_dividends(stake_token, holders, signers)->Ok_0;
    let tf = pre.platform_fees as int;
    let tw = weight_sum(holders);
    lemma_weight_sum_nonneg(holders);
    lemma_dividends_bounded(holders, stake_token, tf, tw);
    vstd::arithmetic::div_mod::lemma_div_multiples_vanish(tf, tw);
    assert(tf * tw == tw * tf) by (nonlinear_arith);
    let payments = dividend_payments(holders, stake_token, tf, tw);
    let event = effects.last();
    assert(effects == payments.push(event));
    assert(payments.push(event).drop_last() =~= payments);
}

proof fn lemma_weight_sum_nonneg(holders: Seq<(Addr, i128)>)
    requires
        forall|i: int| 0 <= i < holders.len() ==> (#[trigger] holders[i]).1 >= 0,
    ensures
        weight_sum(holders) >= 0,
    decreases holders.len(),
{
    if holders.len() > 0 {
        let t = holders.drop_last();
        assert forall|i: int| 0 <= i < t.len() implies (#[trigger] t[i]).1 >= 0 by {
            assert(t[i] == holders[i]);
        }
        lemma_weight_sum_nonneg(t);
    }
}

/// A new staker on a call raises its participant count by one; a staker who already
/// has an entry on the call (on either side) leaves it as it was. In a valid registry
/// the count is the number of distinct users with an entry on the call.
pub proof fn lemma_stake_counts_participants(
    pre: RegistryView,
    call_id: u64,
    staker: Addr,
    amount: i128,
    position: bool,
    now: u64,
    signers: Seq<Addr>,
)
    requires
        pre.valid(),
        pre.stake_on_call(call_id, staker, amount, position, now, signers) is Ok,
    ensures
        ({
            let post = pre.stake_on_call(call_id, staker, amount, position, now, signers)->Ok_0.0;
            let c = call_id as int;
            &&& participants(post.stakes, c) == participants(pre.stakes, c).insert(staker)
            &&& post.calls[c].participant_count == participants(post.stakes, c).len()
            &&& post.calls[c].participant_count == pre.calls[c].participant_count + if participants(
                pre.stakes,
                c,
            ).contains(staker) {
                0int
            } else {
                1int
            }
        }),
{
    let post = pre.stake_on_call(call_id, staker, amount, position, now, signers)->Ok_0.0;
    let c = call_id as int;
    lemma_stake_preserves_valid(pre, call_id, staker, amount, position, now, signers);
    assert(call_consistent(post.calls[c], post.stakes, c));
    assert(call_consistent(pre.calls[c], pre.stakes, c));
    let k = StakeKey { call_id, user: staker, position };
    let cur = pre.user_stake(call_id, staker, position);
    let call = pre.calls[c];
    let fee = surge_fee(amount as int, fee_bps(call.participant_count as int));
    lemma_participants_after_set(pre.stakes, k, (cur + (amount - fee)) as i128, c);
    lemma_joins_iff_new_participant(pre.stakes, call_id, staker);
    lemma_participants(pre.stakes, c);
}

/// What a settled call still owes its winners.
pub open spec fn owed_by(v: RegistryView, c: int) -> int {
    let call = v.calls[c];
    total_owed(v.stakes, c, call.outcome, pool(call, call.outcome), pool(call, !call.outcome))
}

/// Writing under a key of another call leaves what a call owes unchanged.
proof fn lemma_owed_after_other_set(s: Seq<StakeEntry>, k: StakeKey, a: i128, c: int, o: bool, w: int, l: int)
    requires
        k.call_id != c,
    ensures
        total_owed(stake_set(s, k, a), c, o, w, l) == total_owed(s, c, o, w, l),
{
    lemma_last_index_of_spec(s, k);
    lemma_sum_after_set(s, k, a, owed_fn(c, o, w, l));
}

/// A withdrawal pays exactly what the ledger owed the stake: the call's vault balance
/// falls by the payout, what it still owes falls by the same amount, and its pools,
/// outcome and price do not change.
pub proof fn lemma_withdraw_pays_what_is_owed(
    pre: RegistryView,
    call_id: u64,
    user: Addr,
    position: bool,
    signers: Seq<Addr>,
)
    requires
        pre.valid(),
        pre.withdraw_payout(call_id, user, position, signers) is Ok,
    ensures
        ({
            let post = pre.withdraw_payout(call_id, user, position, signers)->Ok_0.0;
            let c = call_id as int;
            let payout = pre.calls[c].vault_balance - post.calls[c].vault_balance;
            &&& post.calls[c] == (crate::types::Call { vault_balance: post.calls[c].vault_balance, ..pre.calls[c] })
            &&& payout == owed_by(pre, c) - owed_by(post, c)
            &&& payout == payout_amount(
                pre.user_stake(call_id, user, position) as int,
                pool(pre.calls[c], position),
                pool(pre.calls[c], !position),
            )
        }),
{
    let post = pre.withdraw_payout(call_id, user, position, signers)->Ok_0.0;
    let s = pre.stakes;
    let c0 = call_id as int;
    let call = pre.calls[c0];
    let k = StakeKey { call_id, user, position };
    lemma_last_index_of_spec(s, k);
    let i0 = last_index_of(s, k);
    let a = s[i0].amount;
    assert(call_consistent(call, s, c0));
    let w = pool(call, position);
    let l = pool(call, !position);
    lemma_side_total_bounds(s, c0, position);
    assert(side_amount(s[i0], c0, position) == a);
    assert(0 < a <= w);
    lemma_payout_nonneg(a as int, w, l);
    let f = owed_fn(c0, call.outcome, w, l);
    lemma_sum_after_set(s, k, 0, f);
    assert(f(s[i0]) == payout_amount(a as int, w, l));
    assert(f(StakeEntry { key: k, amount: 0 }) == 0);
}

/// An operation leaves a settled call settled, with the same outcome, price and pools,
/// and leaves its reserve (vault balance less what it still owes) unchanged; calls
/// are never removed.
pub proof fn lemma_step_keeps_settlement(pre: RegistryView, op: Operation, c: int)
    requires
        pre.valid(),
        0 <= c < pre.calls.len(),
        pre.calls[c].settled,
    ensures
        pre.step(op).calls.len() >= pre.calls.len(),
        pre.step(op).calls[c].settled,
        pre.step(op).calls[c].outcome == pre.calls[c].outcome,
        pre.step(op).calls[c].final_price == pre.calls[c].final_price,
        pre.step(op).calls[c].total_stake_yes == pre.calls[c].total_stake_yes,
        pre.step(op).calls[c].total_stake_no == pre.calls[c].total_stake_no,
        pre.step(op).calls[c].vault_balance - owed_by(pre.step(op), c) == pre.calls[c].vault_balance
            - owed_by(pre, c),
{
    let call = pre.calls[c];
    let w = pool(call, call.outcome);
    let l = pool(call, !call.outcome);
    match op {
        Operation::CreateCall { creator, stake_token, stake_amount, end_ts, metadata, now, signers } => {
            if let Ok((post, id, _)) = pre.create_call(
                creator,
                stake_token,
                stake_amount,
                end_ts,
                metadata,
                now,
                signers,
            ) {
                assert(post.calls[c] == pre.calls[c]);
                lemma_owed_after_other_set(
                    pre.stakes,
                    StakeKey { call_id: id, user: creator, position: true },
                    stake_amount,
                    c,
                    call.outcome,
                    w,
                    l,
                );
            }
        },
        Operation::StakeOnCall { call_id, staker, amount, position, now, signers } => {
            if let Ok((post, _)) = pre.stake_on_call(call_id, staker, amount, position, now, signers) {
                let cc = pre.calls[call_id as int];
                let fee = surge_fee(amount as int, fee_bps(cc.participant_count as int));
                let cur = pre.user_stake(call_id, staker, position);
                assert(call_id != c);
                assert(post.calls[c] == pre.calls[c]);
                lemma_owed_after_other_set(
                    pre.stakes,
                    StakeKey { call_id, user: staker, position },
                    (cur + (amount - fee)) as i128,
                    c,
                    call.outcome,
                    w,
                    l,
                );
            }
        },
        Operation::WithdrawPayout { call_id, user, position, signers } => {
            if let Ok((post, _)) = pre.withdraw_payout(call_id, user, position, signers) {
                if call_id as int == c {
                    lemma_withdraw_pays_what_is_owed(pre, call_id, user, position, signers);
                } else {
                    assert(post.calls[c] == pre.calls[c]);
                    lemma_owed_after_other_set(
                        pre.stakes,
                        StakeKey { call_id, user, position },
                        0,
                        c,
                        call.outcome,
                        w,
                        l,
                    );
                }
            }
        },
        Operation::FinalizeCall { call_id, outcome, final_price, caller, now, signers } => {
            if let Ok((post, _)) = pre.finalize_call(call_id, outcome, final_price, caller, now, signers) {
                assert(call_id != c);
                assert(post.calls[c] == pre.calls[c]);
            }
        },
        _ => {},
    }
}

/// Every operation keeps a valid registry valid.
pub proof fn lemma_step_preserves_valid(pre: RegistryView, op: Operation)
    requires
        pre.valid(),
    ensures
        pre.step(op).valid(),
{
    match op {
        Operation::Initialize { admin, signers } => {
            lemma_admin_operations_preserve_valid(pre, admin, admin, false, signers);
        },
        Operation::SetVault { vault, signers } => {
            lemma_admin_operations_preserve_valid(pre, vault, vault, false, signers);
        },
        Operation::ClearVault { signers } => {
            lemma_admin_operations_preserve_valid(pre, Addr(0), Addr(0), false, signers);
        },
        Operation::SetPaused { paused, signers } => {
            lemma_admin_operations_preserve_valid(pre, Addr(0), Addr(0), paused, signers);
        },
        Operation::CreateCall { creator, stake_token, stake_amount, end_ts, metadata, now, signers } => {
            lemma_create_call_preserves_valid(
                pre,
                creator,
                stake_token,
                stake_amount,
                end_ts,
                metadata,
                now,
                signers,
            );
        },
        Operation::StakeOnCall { call_id, staker, amount, position, now, signers } => {
            lemma_stake_preserves_valid(pre, call_id, staker, amount, position, now, signers);
        },
        Operation::WithdrawPayout { call_id, user, position, signers } => {
            lemma_withdraw_preserves_valid(pre, call_id, user, position, signers);
        },
        Operation::FinalizeCall { call_id, outcome, final_price, caller, now, signers } => {
            lemma_finalize_preserves_valid(pre, call_id, outcome, final_price, caller, now, signers);
        },
        Operation::DistributeDividends { stake_token, holders, signers } => {
            lemma_distribute_preserves_valid(pre, stake_token, holders, signers);
        },
    }
}

/// Any sequence of operations keeps a valid registry valid; so every registry reached
/// from a fresh one is valid.
pub proof fn lemma_run_preserves_valid(pre: RegistryView, ops: Seq<Operation>)
    requires
        pre.valid(),
    ensures
        pre.run(ops).valid(),
        empty_registry().run(ops).valid(),
    decreases ops.len(),
{
    if ops.len() > 0 {
        lemma_run_preserves_valid(pre, ops.drop_last());
        lemma_step_preserves_valid(pre.run(ops.drop_last()), ops.last());
        lemma_step_preserves_valid(empty_registry().run(ops.drop_last()), ops.last());
    }
}

/// Once settled, a call stays settled with the same outcome, price and pools through
/// any later operations, and its reserve (vault balance less what it still owes its
/// winners) never changes.
pub proof fn lemma_settlement_persists(pre: RegistryView, ops: Seq<Operation>, c: int)
    requires
        pre.valid(),
        0 <= c < pre.calls.len(),
        pre.calls[c].settled,
    ensures
        pre.run(ops).calls.len() >= pre.calls.len(),
        pre.run(ops).calls[c].settled,
        pre.run(ops).calls[c].outcome == pre.calls[c].outcome,
        pre.run(ops).calls[c].final_price == pre.calls[c].final_price,
        pre.run(ops).calls[c].total_stake_yes == pre.calls[c].total_stake_yes,
        pre.run(ops).calls[c].total_stake_no == pre.calls[c].total_stake_no,
        pre.run(ops).calls[c].vault_balance - owed_by(pre.run(ops), c) == pre.calls[c].vault_balance
            - owed_by(pre, c),
    decreases ops.len(),
{
    if ops.len() > 0 {
        let mid = pre.run(ops.drop_last());
        lemma_settlement_persists(pre, ops.drop_last(), c);
        lemma_run_preserves_valid(pre, ops.drop_last());
        lemma_step_keeps_settlement(mid, ops.last(), c);
    }
}

/// Each winning term, rounded down, loses less than one unit:
/// `w * (owed - stakes) >= stakes * l - (w - 1) * unclaimed`.
proof fn lemma_owed_lower_bound(s: Seq<StakeEntry>, c: int, o: bool, w: int, l: int)
    requires
        w > 0,
        l >= 0,
        forall|i: int| 0 <= i < s.len() ==> (#[trigger] s[i]).amount >= 0,
    ensures
        w * (total_owed(s, c, o, w, l) - side_total(s, c, o)) >= side_total(s, c, o) * l - (w - 1)
            * unclaimed_winners(s, c, o),
    decreases s.len(),
{
    if s.len() > 0 {
        let t = s.drop_last();
        assert forall|i: int| 0 <= i < t.len() implies (#[trigger] t[i]).amount >= 0 by {
            assert(t[i] == s[i]);
        }
        lemma_owed_lower_bound(t, c, o, w, l);
        let e = s.last();
        let a = side_amount(e, c, o);
        let st = side_total(t, c, o);
        let ot = total_owed(t, c, o, w, l);
        let nt = unclaimed_winners(t, c, o);
        assert(e.amount >= 0);
        assert(side_total(s, c, o) == st + a);
        let x = if e.key.call_id == c && e.key.position == o && e.amount > 0 {
            1int
        } else {
            0int
        };
        assert(unclaimed_winners(s, c, o) == nt + x);
        let q = (a * l) / w;
        assert(total_owed(s, c, o, w, l) == ot + a + q);
        vstd::arithmetic::div_mod::lemma_fundamental_div_mod(a * l, w);
        vstd::arithmetic::div_mod::lemma_mod_pos_bound(a * l, w);
        if a == 0 {
            assert(a * l == 0) by (nonlinear_arith)
                requires
                    a == 0,
            ;
            vstd::arithmetic::div_mod::lemma_basic_div(0, w);
        }
        assert(w * q >= a * l - (w - 1) * x) by (nonlinear_arith)
            requires
                a * l == w * q + (a * l) % w,
                0 <= (a * l) % w < w,
                a == 0 ==> q == 0 && a * l == 0,
                a > 0 ==> x == 1,
                a >= 0,
                0 <= x <= 1,
                w > 0,
        ;
        assert(w * (ot + a + q - (st + a)) == w * (ot - st) + w * q) by (nonlinear_arith);
        assert((st + a) * l == st * l + a * l) by (nonlinear_arith);
        assert((w - 1) * (nt + x) == (w - 1) * nt + (w - 1) * x) by (nonlinear_arith);
    }
}

/// At settlement, what the winners are owed in total is their pool plus the
/// losers' pool, each share rounded down: at most `W + L`, and, when the winners'
/// pool `W` is positive, more than `W + L - n` for `n` winning stakes.
pub proof fn lemma_settlement_payout_bounds(
    pre: RegistryView,
    call_id: u64,
    outcome: bool,
    final_price: i128,
    caller: Addr,
    now: u64,
    signers: Seq<Addr>,
)
    requires
        pre.valid(),
        pre.finalize_call(call_id, outcome, final_price, caller, now, signers) is Ok,
    ensures
        ({
            let post = pre.finalize_call(call_id, outcome, final_price, caller, now, signers)->Ok_0.0;
            let c = call_id as int;
            let w = pool(post.calls[c], outcome);
            let l = pool(post.calls[c], !outcome);
            let n = unclaimed_winners(post.stakes, c, outcome);
            &&& side_total(post.stakes, c, outcome) == w
            &&& post.calls[c].vault_balance == w + l
            &&& owed_by(post, c) <= w + l
            &&& w > 0 ==> w + l - n < owed_by(post, c)
        }),
{
    let post = pre.finalize_call(call_id, outcome, final_price, caller, now, signers)->Ok_0.0;
    let c = call_id as int;
    lemma_finalize_preserves_valid(pre, call_id, outcome, final_price, caller, now, signers);
    assert(call_consistent(post.calls[c], post.stakes, c));
    let s = post.stakes;
    let w = pool(post.calls[c], outcome);
    let l = pool(post.calls[c], !outcome);
    let call = pre.calls[c];
    assert(call_consistent(call, pre.stakes, c));
    let l0 = pool(call, !outcome);
    let gas = gas_fee(l0);
    assert(0 <= gas <= l0) by (nonlinear_arith)
        requires
            l0 >= 0,
            gas == (l0 * 5) / 1000,
    ;
    assert(side_total(s, c, outcome) == w);
    if w > 0 {
        lemma_owed_lower_bound(s, c, outcome, w, l);
        let t = owed_by(post, c);
        let n = unclaimed_winners(s, c, outcome);
        let cnt = |e: StakeEntry|
            if e.key.call_id == c && e.key.position == outcome && e.amount > 0 {
                1int
            } else {
                0int
            };
        assert forall|j: int| 0 <= j < s.len() implies cnt(#[trigger] s[j]) >= 0 by {}
        lemma_entry_sum_nonneg(s, cnt);
        assert(n >= 1) by {
            if n == 0 {
                let f = side_fn(c, outcome);
                assert forall|j: int| 0 <= j < s.len() implies f(#[trigger] s[j]) == 0 by {
                    assert(cnt(s[j]) <= entry_sum(s, cnt));
                }
                lemma_entry_sum_zero(s, f);
            }
        }
        assert(w * (t - w) >= w * l - (w - 1) * n);
        assert(t > w + l - n) by (nonlinear_arith)
            requires
                w * (t - w) >= w * l - (w - 1) * n,
                w > 0,
                n >= 1,
        ;
    }
}

/// Once every winner of a settled call has withdrawn, nothing more is owed.
pub proof fn lemma_all_claimed_nothing_owed(v: RegistryView, c: int)
    requires
        v.valid(),
        0 <= c < v.calls.len(),
        v.calls[c].settled,
        unclaimed_winners(v.stakes, c, v.calls[c].outcome) == 0,
    ensures
        owed_by(v, c) == 0,
{
    let call = v.calls[c];
    let o = call.outcome;
    let s = v.stakes;
    let w = pool(call, o);
    let l = pool(call, !o);
    let cnt = |e: StakeEntry|
        if e.key.call_id == c && e.key.position == o && e.amount > 0 {
            1int
        } else {
            0int
        };
    assert forall|j: int| 0 <= j < s.len() implies cnt(#[trigger] s[j]) >= 0 by {}
    lemma_entry_sum_nonneg(s, cnt);
    let f = owed_fn(c, o, w, l);
    assert forall|j: int| 0 <= j < s.len() implies f(#[trigger] s[j]) == 0 by {
        assert(cnt(s[j]) <= entry_sum(s, cnt));
        if s[j].key.call_id == c && s[j].key.position == o && w > 0 {
            lemma_payout_nonneg(0, w, l);
        }
    }
    lemma_entry_sum_zero(s, f);
}

/// Winners are paid in full from the call: after a call is settled, once every winner
/// has withdrawn (through any sequence of operations), the call's vault balance has
/// fallen by exactly what was owed at settlement, which is at most `W + L` and, with a
/// positive winners' pool `W`, more than `W + L - n` for `n` winning stakes.
pub proof fn lemma_winners_paid_in_full(
    pre: RegistryView,
    call_id: u64,
    outcome: bool,
    final_price: i128,
    caller: Addr,
    now: u64,
    signers: Seq<Addr>,
    ops: Seq<Operation>,
)
    requires
        pre.valid(),
        pre.finalize_call(call_id, outcome, final_price, caller, now, signers) is Ok,
        unclaimed_winners(
            pre.finalize_call(call_id, outcome, final_price, caller, now, signers)->Ok_0.0.run(ops).stakes,
            call_id as int,
            outcome,
        ) == 0,
    ensures
        ({
            let settled = pre.finalize_call(call_id, outcome, final_price, caller, now, signers)->Ok_0.0;
            let end = settled.run(ops);
            let c = call_id as int;
            let w = pool(settled.calls[c], outcome);
            let l = pool(settled.calls[c], !outcome);
            let paid = settled.calls[c].vault_balance - end.calls[c].vault_balance;
            &&& paid == owed_by(settled, c)
            &&& paid <= w + l
            &&& w > 0 ==> w + l - unclaimed_winners(settled.stakes, c, outcome) < paid
            &&& end.calls[c].vault_balance >= 0
        }),
{
    let settled = pre.finalize_call(call_id, outcome, final_price, caller, now, signers)->Ok_0.0;
    let c = call_id as int;
    lemma_finalize_preserves_valid(pre, call_id, outcome, final_price, caller, now, signers);
    lemma_settlement_payout_bounds(pre, call_id, outcome, final_price, caller, now, signers);
    lemma_settlement_persists(settled, ops, c);
    lemma_run_preserves_valid(settled, ops);
    let end = settled.run(ops);
    lemma_all_claimed_nothing_owed(end, c);
    lemma_valid_registry_is_solvent(end, c);
}

/// An accepted withdrawal pays the user exactly what the call's vault balance loses,
/// in the call's stake token, and where a vault is configured withdraws exactly that
/// amount from it first. In a valid registry that amount is the stake plus its share
/// of the losers' pool, rounded down: `stake + stake * losers / winners`.
pub proof fn lemma_withdraw_effects(pre: RegistryView, call_id: u64, user: Addr, position: bool, signers: Seq<Addr>)
    requires
        pre.withdraw_payout(call_id, user, position, signers) is Ok,
    ensures
        ({
            let (post, effects) = pre.withdraw_payout(call_id, user, position, signers)->Ok_0;
            let call = pre.calls[call_id as int];
            let paid = call.vault_balance - post.calls[call_id as int].vault_balance;
            let stake = pre.user_stake(call_id, user, position) as int;
            let winners = if position {
                call.total_stake_yes as int
            } else {
                call.total_stake_no as int
            };
            let losers = if position {
                call.total_stake_no as int
            } else {
                call.total_stake_yes as int
            };
            let tail = seq![
                Effect::Pay { token: call.stake_token, to: user, amount: paid as i128 },
                Effect::Emit(Event::PayoutWithdrawn { call_id, user, payout: paid as i128 }),
            ];
            &&& match pre.vault {
                Some(v) => effects == seq![Effect::VaultWithdraw { vault: v, amount: paid as i128 }] + tail,
                None => effects == tail,
            }
            &&& post.user_stake(call_id, user, position) == 0
            &&& pre.valid() ==> paid == stake + (stake * losers) / winners && stake > 0 && winners > 0
        }),
{
    let (post, effects) = pre.withdraw_payout(call_id, user, position, signers)->Ok_0;
    let k = StakeKey { call_id, user, position };
    lemma_stake_set(pre.stakes, k, 0, k);
    if pre.valid() {
        let s = pre.stakes;
        let c0 = call_id as int;
        let call = pre.calls[c0];
        lemma_last_index_of_spec(s, k);
        let i0 = last_index_of(s, k);
        let a = s[i0].amount;
        assert(call_consistent(call, s, c0));
        let w = pool(call, position);
        let l = pool(call, !position);
        lemma_side_total_bounds(s, c0, position);
        assert(side_amount(s[i0], c0, position) == a);
        assert(0 < a <= w);
        assert(a * l >= 0) by (nonlinear_arith)
            requires
                a > 0,
                l >= 0,
        ;
    }
}

/// An accepted stake collects the whole amount in the call's stake token, and splits
/// it into a fee of `amount * bps / 10_000` (at the call's rate `bps`), which joins the
/// platform fees, and the net rest, which joins the chosen side's pool and the call's
/// vault balance and, where a vault is configured, is deposited there in the same
/// stake token.
pub proof fn lemma_stake_effects(
    pre: RegistryView,
    call_id: u64,
    staker: Addr,
    amount: i128,
    position: bool,
    now: u64,
    signers: Seq<Addr>,
)
    requires
        pre.stake_on_call(call_id, staker, amount, position, now, signers) is Ok,
    ensures
        ({
            let (post, effects) = pre.stake_on_call(call_id, staker, amount, position, now, signers)->Ok_0;
            let c = call_id as int;
            let call = pre.calls[c];
            let bps = fee_bps(call.participant_count as int);
            let fee = post.platform_fees - pre.platform_fees;
            let net = post.calls[c].vault_balance - call.vault_balance;
            &&& fee == (amount * bps) / 10_000
            &&& fee + net == amount
            &&& 0 <= fee <= net
            &&& (if position {
                post.calls[c].total_stake_yes - call.total_stake_yes
            } else {
                post.calls[c].total_stake_no - call.total_stake_no
            }) == net
            &&& post.calls[c].stake_token == call.stake_token
            &&& effects[0] == Effect::Collect { token: call.stake_token, from: staker, amount }
            &&& effects.last() == Effect::Emit(
                Event::StakeAdded {
                    call_id,
                    staker,
                    position,
                    net_amount: net as i128,
                    fee: fee as i128,
                    fee_bps: bps as i128,
                },
            )
            &&& match pre.vault {
                Some(v) => effects.len() == 3 && effects[1] == Effect::VaultDeposit {
                    vault: v,
                    token: call.stake_token,
                    amount: net as i128,
                },
                None => effects.len() == 2,
            }
        }),
{
    let c = call_id as int;
    let call = pre.calls[c];
    let bps = fee_bps(call.participant_count as int);
    lemma_fee_bps_bounded_and_monotonic(call.participant_count as int, call.participant_count as int);
    let fee = surge_fee(amount as int, bps);
    assert(0 <= fee && 2 * fee <= amount) by (nonlinear_arith)
        requires
            fee == (amount * bps) / 10_000,
            amount > 0,
            50 <= bps <= 200,
    ;
}

/// An unsettled call is finalized by an authorised caller exactly when its end time has
/// come: it is refused with `CallNotEnded` just when `now < end_ts`; at or after the
/// end time it is settled with the given outcome and price, unless the losers' pool
/// is too large to compute the gas fee.
pub proof fn lemma_finalize_after_end(
    pre: RegistryView,
    call_id: u64,
    outcome: bool,
    final_price: i128,
    caller: Addr,
    now: u64,
    signers: Seq<Addr>,
)
    requires
        pre.valid(),
        call_id < pre.calls.len(),
        !pre.calls[call_id as int].settled,
        signers.contains(caller),
    ensures
        ({
            let call = pre.calls[call_id as int];
            let losers = if outcome {
                call.total_stake_no as int
            } else {
                call.total_stake_yes as int
            };
            let r = pre.finalize_call(call_id, outcome, final_price, caller, now, signers);
            &&& (r == Err::<(RegistryView, Seq<Effect>), RegistryError>(RegistryError::CallNotEnded)
                <==> now < call.end_ts)
            &&& (now >= call.end_ts && losers * 5 <= i128::MAX) ==> (r matches Ok((post, _))
                && post.calls[call_id as int].settled && post.calls[call_id as int].outcome == outcome
                && post.calls[call_id as int].final_price == final_price)
        }),
{
    let c = call_id as int;
    let call = pre.calls[c];
    assert(call_consistent(call, pre.stakes, c));
    let l0 = pool(call, !outcome);
    let gas = gas_fee(l0);
    assert(0 <= gas <= l0) by (nonlinear_arith)
        requires
            l0 >= 0,
            gas == (l0 * 5) / 1000,
    ;
}

} // verus!
