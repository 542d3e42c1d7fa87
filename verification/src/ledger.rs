//! The stake ledger: one entry per (call, user, side), kept in the order first staked.
use vstd::prelude::*;

use crate::types::Addr;

verus! {

/// Whose stake on which side of which call.
#[derive(Clone, Copy, Debug, PartialEq, Eq, Structural)]
pub struct StakeKey {
    pub call_id: u64,
    pub user: Addr,
    pub position: bool,
}

/// A recorded stake.
#[derive(Clone, Copy, Debug, PartialEq, Eq, Structural)]
pub struct StakeEntry {
    pub key: StakeKey,
    pub amount: i128,
}

/// Index of the last entry of `s` under key `k`, or -1 where there is none.
pub open spec fn last_index_of(s: Seq<StakeEntry>, k: StakeKey) -> int
    decreases s.len(),
{
    if s.len() == 0 {
        -1
    } else if s.last().key == k {
        s.len() - 1
    } else {
        last_index_of(s.drop_last(), k)
    }
}

/// The amount recorded under `k`, if any.
pub open spec fn stake_lookup(s: Seq<StakeEntry>, k: StakeKey) -> Option<i128> {
    let i = last_index_of(s, k);
    if i < 0 {
        None
    } else {
        Some(s[i].amount)
    }
}

/// The ledger with the amount under `k` set to `amount`: the entry is rewritten in
/// place where it exists, and appended otherwise.
pub open spec fn stake_set(s: Seq<StakeEntry>, k: StakeKey, amount: i128) -> Seq<StakeEntry> {
    let i = last_index_of(s, k);
    if i < 0 {
        s.push(StakeEntry { key: k, amount })
    } else {
        s.update(i, StakeEntry { key: k, amount })
    }
}

/// No key occurs twice.
pub open spec fn keys_unique(s: Seq<StakeEntry>) -> bool {
    forall|i: int, j: int| 0 <= i < j < s.len() ==> s[i].key != s[j].key
}

/// The sum of `f` over the entries of `s`.
pub open spec fn entry_sum(s: Seq<StakeEntry>, f: spec_fn(StakeEntry) -> int) -> int
    decreases s.len(),
{
    if s.len() == 0 {
        0
    } else {
        entry_sum(s.drop_last(), f) + f(s.last())
    }
}

/// The amount an entry puts on side `position` of call `call_id`.
pub open spec fn side_amount(e: StakeEntry, call_id: int, position: bool) -> int {
    if e.key.call_id == call_id && e.key.position == position {
        e.amount as int
    } else {
        0
    }
}

/// `side_amount` for one side of one call, as a function of the entry.
pub open spec fn side_fn(call_id: int, position: bool) -> spec_fn(StakeEntry) -> int {
    |e: StakeEntry| side_amount(e, call_id, position)
}

/// Everything the ledger holds on side `position` of call `call_id`.
pub open spec fn side_total(s: Seq<StakeEntry>, call_id: int, position: bool) -> int {
    entry_sum(s, side_fn(call_id, position))
}

/// The users with an entry on call `call_id`.
pub open spec fn participants(s: Seq<StakeEntry>, call_id: int) -> Set<Addr>
    decreases s.len(),
{
    if s.len() == 0 {
        Set::empty()
    } else {
        let rest = participants(s.drop_last(), call_id);
        if s.last().key.call_id == call_id {
            rest.insert(s.last().key.user)
        } else {
            rest
        }
    }
}

/// The participants of a call are finitely many: exactly the users of its entries.
pub proof fn lemma_participants(s: Seq<StakeEntry>, call_id: int)
    ensures
        participants(s, call_id).finite(),
        forall|u: Addr|
            participants(s, call_id).contains(u) <==> exists|i: int|
                0 <= i < s.len() && (#[trigger] s[i]).key.call_id == call_id && s[i].key.user == u,
    decreases s.len(),
{
    if s.len() > 0 {
        let t = s.drop_last();
        lemma_participants(t, call_id);
        assert forall|u: Addr|
            participants(s, call_id).contains(u) <==> exists|i: int|
                0 <= i < s.len() && (#[trigger] s[i]).key.call_id == call_id && s[i].key.user == u by {
            if participants(s, call_id).contains(u) {
                if participants(t, call_id).contains(u) {
                    let i = choose|i: int|
                        0 <= i < t.len() && (#[trigger] t[i]).key.call_id == call_id && t[i].key.user == u;
                    assert(s[i] == t[i]);
                } else {
                    assert(s[s.len() - 1] == s.last());
                }
            }
            if exists|i: int| 0 <= i < s.len() && (#[trigger] s[i]).key.call_id == call_id && s[i].key.user == u {
                let i = choose|i: int|
                    0 <= i < s.len() && (#[trigger] s[i]).key.call_id == call_id && s[i].key.user == u;
                if i < t.len() {
                    assert(t[i] == s[i]);
                }
            }
        }
    }
}

/// Writing under a key of call `call_id` adds that key's user to the call's
/// participants (who may be one already); writing under another call's key changes
/// nothing.
pub proof fn lemma_participants_after_set(s: Seq<StakeEntry>, k: StakeKey, a: i128, call_id: int)
    ensures
        participants(stake_set(s, k, a), call_id) == if k.call_id == call_id {
            participants(s, call_id).insert(k.user)
        } else {
            participants(s, call_id)
        },
{
    let t = stake_set(s, k, a);
    lemma_participants(s, call_id);
    lemma_participants(t, call_id);
    lemma_last_index_of_spec(s, k);
    let li = last_index_of(s, k);
    let expected = if k.call_id == call_id {
        participants(s, call_id).insert(k.user)
    } else {
        participants(s, call_id)
    };
    assert forall|u: Addr| #[trigger] participants(t, call_id).contains(u) == expected.contains(u) by {
        if participants(t, call_id).contains(u) {
            let i = choose|i: int|
                0 <= i < t.len() && (#[trigger] t[i]).key.call_id == call_id && t[i].key.user == u;
            if i < s.len() && i != li {
                assert(t[i] == s[i]);
            }
        }
        if participants(s, call_id).contains(u) {
            let i = choose|i: int|
                0 <= i < s.len() && (#[trigger] s[i]).key.call_id == call_id && s[i].key.user == u;
            if i == li {
                assert(t[i].key == s[i].key);
            } else {
                assert(t[i] == s[i]);
            }
        }
        if k.call_id == call_id && u == k.user {
            if li < 0 {
                assert(t[s.len() as int].key == k);
            } else {
                assert(t[li].key == k);
            }
        }
    }
    assert(participants(t, call_id) =~= expected);
}

proof fn lemma_last_index_of(s: Seq<StakeEntry>, k: StakeKey)
    ensures
        -1 <= last_index_of(s, k) < s.len(),
        last_index_of(s, k) >= 0 ==> s[last_index_of(s, k)].key == k,
        forall|j: int| last_index_of(s, k) < j < s.len() ==> s[j].key != k,
    decreases s.len(),
{
    if s.len() > 0 {
        lemma_last_index_of(s.drop_last(), k);
        assert forall|j: int| last_index_of(s, k) < j < s.len() implies s[j].key != k by {
            if j < s.len() - 1 {
                assert(s[j] == s.drop_last()[j]);
            }
        }
    }
}

/// `last_index_of` finds the last entry under its key, and only misses a key that
/// the ledger does not hold.
pub proof fn lemma_last_index_of_spec(s: Seq<StakeEntry>, k: StakeKey)
    ensures
        -1 <= last_index_of(s, k) < s.len(),
        last_index_of(s, k) >= 0 ==> s[last_index_of(s, k)].key == k,
        forall|j: int| last_index_of(s, k) < j < s.len() ==> s[j].key != k,
        last_index_of(s, k) < 0 <==> forall|j: int| 0 <= j < s.len() ==> s[j].key != k,
{
    lemma_last_index_of(s, k);
}

/// Writing under one key leaves what every other key holds as it was, and the
/// written key then holds the written amount.
pub proof fn lemma_stake_set(s: Seq<StakeEntry>, k: StakeKey, amount: i128, other: StakeKey)
    ensures
        stake_lookup(stake_set(s, k, amount), k) == Some(amount),
        other != k ==> stake_lookup(stake_set(s, k, amount), other) == stake_lookup(s, other),
        keys_unique(s) ==> keys_unique(stake_set(s, k, amount)),
{
    lemma_last_index_of_spec(s, k);
    let t = stake_set(s, k, amount);
    lemma_last_index_of_spec(t, k);
    lemma_last_index_of_spec(t, other);
    lemma_last_index_of_spec(s, other);
    let i = last_index_of(s, k);
    if i < 0 {
        assert(t.last().key == k);
        assert(t.drop_last() =~= s);
        if other != k {
            assert(last_index_of(t, other) == last_index_of(s, other));
        }
    } else {
        let it = last_index_of(t, k);
        assert(it == i) by {
            if it > i {
                assert(t[it] == s[it]);
            }
            if it < i {
                assert(t[i].key == k);
            }
        }
        if other != k {
            let jo = last_index_of(s, other);
            let jt = last_index_of(t, other);
            assert(jo == jt) by {
                if jt > jo {
                    if jt != i {
                        assert(t[jt] == s[jt]);
                    }
                }
                if jo > jt {
                    if jo != i {
                        assert(t[jo] == s[jo]);
                    }
                }
            }
            if jo >= 0 {
                assert(jo != i);
            }
        }
    }
    if keys_unique(s) {
        assert forall|a: int, b: int| 0 <= a < b < t.len() implies t[a].key != t[b].key by {
            if i >= 0 {
                if a != i && b != i {
                    assert(t[a] == s[a] && t[b] == s[b]);
                }
                if a == i {
                    assert(s[b].key != s[i].key);
                }
                if b == i {
                    assert(s[a].key != s[i].key);
                }
            } else {
                if b == s.len() {
                    assert(s[a].key != k);
                }
            }
        }
    }
}

/// Changing one entry changes the sum by the difference of its two terms.
pub proof fn lemma_entry_sum_update(
    s: Seq<StakeEntry>,
    i: int,
    x: StakeEntry,
    f: spec_fn(StakeEntry) -> int,
)
    requires
        0 <= i < s.len(),
    ensures
        entry_sum(s.update(i, x), f) == entry_sum(s, f) - f(s[i]) + f(x),
    decreases s.len(),
{
    let t = s.update(i, x);
    if i == s.len() - 1 {
        assert(t.drop_last() =~= s.drop_last());
    } else {
        assert(t.drop_last() =~= s.drop_last().update(i, x));
        lemma_entry_sum_update(s.drop_last(), i, x, f);
    }
}

/// Appending an entry adds its term.
pub proof fn lemma_entry_sum_push(s: Seq<StakeEntry>, x: StakeEntry, f: spec_fn(StakeEntry) -> int)
    ensures
        entry_sum(s.push(x), f) == entry_sum(s, f) + f(x),
{
    assert(s.push(x).drop_last() =~= s);
}

/// Sums of functions that agree on every entry agree.
pub proof fn lemma_entry_sum_ext(
    s: Seq<StakeEntry>,
    f: spec_fn(StakeEntry) -> int,
    g: spec_fn(StakeEntry) -> int,
)
    requires
        forall|j: int| 0 <= j < s.len() ==> f(#[trigger] s[j]) == g(s[j]),
    ensures
        entry_sum(s, f) == entry_sum(s, g),
    decreases s.len(),
{
    if s.len() > 0 {
        lemma_entry_sum_ext(s.drop_last(), f, g);
    }
}

/// A sum of non-negative terms is at least each of its terms, and at least zero.
pub proof fn lemma_entry_sum_nonneg(s: Seq<StakeEntry>, f: spec_fn(StakeEntry) -> int)
    requires
        forall|j: int| 0 <= j < s.len() ==> f(#[trigger] s[j]) >= 0,
    ensures
        entry_sum(s, f) >= 0,
        forall|j: int| 0 <= j < s.len() ==> f(#[trigger] s[j]) <= entry_sum(s, f),
    decreases s.len(),
{
    if s.len() > 0 {
        lemma_entry_sum_nonneg(s.drop_last(), f);
        assert forall|j: int| 0 <= j < s.len() implies f(#[trigger] s[j]) <= entry_sum(s, f) by {
            if j < s.len() - 1 {
                assert(s[j] == s.drop_last()[j]);
            }
        }
    }
}

/// A sum of zero terms is zero.
pub proof fn lemma_entry_sum_zero(s: Seq<StakeEntry>, f: spec_fn(StakeEntry) -> int)
    requires
        forall|j: int| 0 <= j < s.len() ==> f(#[trigger] s[j]) == 0,
    ensures
        entry_sum(s, f) == 0,
    decreases s.len(),
{
    if s.len() > 0 {
        lemma_entry_sum_zero(s.drop_last(), f);
    }
}

/// Finds the entry under `key`: the position of its last occurrence, or `None`.
pub fn find_stake(stakes: &Vec<StakeEntry>, key: StakeKey) -> (r: Option<usize>)
    ensures
        match r {
            Some(i) => i < stakes.len() && i as int == last_index_of(stakes@, key),
            None => last_index_of(stakes@, key) < 0,
        },
{
    proof {
        lemma_last_index_of_spec(stakes@, key);
    }
    let mut i: usize = stakes.len();
    while i > 0
        invariant
            i <= stakes.len(),
            forall|j: int| i <= j < stakes@.len() ==> stakes@[j].key != key,
            -1 <= last_index_of(stakes@, key) < stakes@.len(),
            last_index_of(stakes@, key) >= 0 ==> stakes@[last_index_of(stakes@, key)].key == key,
            forall|j: int| last_index_of(stakes@, key) < j < stakes@.len() ==> stakes@[j].key != key,
            last_index_of(stakes@, key) < 0 <==> forall|j: int|
                0 <= j < stakes@.len() ==> stakes@[j].key != key,
        decreases i,
    {
        i = i - 1;
        if stakes[i].key == key {
            return Some(i);
        }
    }
    None
}

/// Sets the amount under `key`, rewriting its entry in place or appending one.
pub fn set_stake(stakes: &mut Vec<StakeEntry>, key: StakeKey, amount: i128)
    ensures
        final(stakes)@ == stake_set(old(stakes)@, key, amount),
{
    match find_stake(stakes, key) {
        Some(i) => {
            stakes.set(i, StakeEntry { key, amount });
        },
        None => {
            stakes.push(StakeEntry { key, amount });
        },
    }
}

} // verus!
