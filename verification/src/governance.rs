//! Governance rules: the owner and councilor roles, a timelock on fee updates, and
//! soulbound marks that can be minted but never moved.
use vstd::prelude::*;

use crate::types::Addr;

verus! {

/// How long a queued fee update waits before it can be executed: 48 hours, in seconds.
pub const DELAY: u64 = 60 * 60 * 48;

/// Why a governance operation was refused; nothing changes when it is.
#[derive(Clone, Copy, Debug, PartialEq, Eq, Structural)]
pub enum GovernanceError {
    /// The address is not the one holding the role.
    Unauthorized,
    /// The queued fee update's delay has not passed yet.
    NotReady,
    /// The value the operation reads was never stored.
    NotSet,
    /// The queued time plus the delay is past the largest timestamp.
    ArithmeticOverflow,
}

/// The governance contract's stored state.
pub struct Governance {
    pub owner: Option<Addr>,
    pub councilor: Option<Addr>,
    pub fee: Option<u32>,
    pub queued_fee: Option<u32>,
    pub fee_timestamp: Option<u64>,
    /// Holders of a soulbound mark, each once.
    pub souls: Vec<Addr>,
}

/// The governance state as a mathematical value.
#[verifier::ext_equal]
pub struct GovernanceView {
    pub owner: Option<Addr>,
    pub councilor: Option<Addr>,
    pub fee: Option<u32>,
    pub queued_fee: Option<u32>,
    pub fee_timestamp: Option<u64>,
    pub souls: Set<Addr>,
}

impl View for Governance {
    type V = GovernanceView;

    open spec fn view(&self) -> GovernanceView {
        GovernanceView {
            owner: self.owner,
            councilor: self.councilor,
            fee: self.fee,
            queued_fee: self.queued_fee,
            fee_timestamp: self.fee_timestamp,
            souls: self.souls@.to_set(),
        }
    }
}

/// `addr` holds the role held by `holder`.
pub open spec fn role_check(holder: Option<Addr>, addr: Addr) -> Result<(), GovernanceError> {
    match holder {
        None => Err(GovernanceError::NotSet),
        Some(h) => if h == addr {
            Ok(())
        } else {
            Err(GovernanceError::Unauthorized)
        },
    }
}

impl GovernanceView {
    /// Queue `new_fee`, stamped with the time `now`.
    pub open spec fn queue_fee_update(self, now: u64, new_fee: u32) -> GovernanceView {
        GovernanceView { queued_fee: Some(new_fee), fee_timestamp: Some(now), ..self }
    }

    /// Make the queued fee the fee, once more than `DELAY` has passed since it was queued.
    pub open spec fn execute_fee_update(self, now: u64) -> Result<GovernanceView, GovernanceError> {
        match self.fee_timestamp {
            None => Err(GovernanceError::NotSet),
            Some(ts) => match self.queued_fee {
                None => Err(GovernanceError::NotSet),
                Some(queued) => if ts + DELAY > u64::MAX {
                    Err(GovernanceError::ArithmeticOverflow)
                } else if now <= ts + DELAY {
                    Err(GovernanceError::NotReady)
                } else {
                    Ok(GovernanceView { fee: Some(queued), ..self })
                },
            },
        }
    }
}

impl Governance {
    /// Refuses unless `addr` is the owner.
    pub fn require_owner(&self, addr: Addr) -> (r: Result<(), GovernanceError>)
        ensures
            r == role_check(self@.owner, addr),
    {
        match self.owner {
            None => Err(GovernanceError::NotSet),
            Some(owner) => if owner == addr {
                Ok(())
            } else {
                Err(GovernanceError::Unauthorized)
            },
        }
    }

    /// Refuses unless `addr` is the councilor.
    pub fn require_councilor(&self, addr: Addr) -> (r: Result<(), GovernanceError>)
        ensures
            r == role_check(self@.councilor, addr),
    {
        match self.councilor {
            None => Err(GovernanceError::NotSet),
            Some(councilor) => if councilor == addr {
                Ok(())
            } else {
                Err(GovernanceError::Unauthorized)
            },
        }
    }

    /// Give `user` a soulbound mark. There is no way to move one.
    pub fn mint_soul(&mut self, user: Addr)
        ensures
            final(self)@ == (GovernanceView { souls: old(self)@.souls.insert(user), ..old(self)@ }),
    {
        if !self.has_soul(user) {
            self.souls.push(user);
        }
        proof {
            let s0 = old(self).souls@;
            let s1 = self.souls@;
            assert forall|a: Addr| #[trigger] s1.contains(a) == (s0.contains(a) || a == user) by {
                if s0.contains(a) {
                    let j = choose|j: int| 0 <= j < s0.len() && s0[j] == a;
                    assert(s1[j] == a);
                }
                if a == user && !s0.contains(a) {
                    assert(s1[s0.len() as int] == user);
                }
                if s1.contains(a) {
                    let j = choose|j: int| 0 <= j < s1.len() && s1[j] == a;
                    if j < s0.len() {
                        assert(s0[j] == a);
                    }
                }
            }
            assert(self@.souls =~= old(self)@.souls.insert(user));
        }
    }

    /// Whether `user` holds a soulbound mark.
    pub fn has_soul(&self, user: Addr) -> (r: bool)
        ensures
            r == self@.souls.contains(user),
    {
        let mut i: usize = 0;
        while i < self.souls.len()
            invariant
                i <= self.souls.len(),
                forall|j: int| 0 <= j < i ==> self.souls@[j] != user,
            decreases self.souls.len() - i,
        {
            if self.souls[i] == user {
                return true;
            }
            i = i + 1;
        }
        false
    }

    /// Queue a fee update, stamped with the current time `now`.
    pub fn queue_fee_update(&mut self, now: u64, new_fee: u32)
        ensures
            final(self)@ == old(self)@.queue_fee_update(now, new_fee),
    {
        self.queued_fee = Some(new_fee);
        self.fee_timestamp = Some(now);
    }

    /// Apply the queued fee update once more than `DELAY` has passed since it was queued.
    pub fn execute_fee_update(&mut self, now: u64) -> (r: Result<(), GovernanceError>)
        ensures
            match r {
                Ok(()) => old(self)@.execute_fee_update(now) == Ok::<GovernanceView, GovernanceError>(
                    final(self)@,
                ),
                Err(e) => old(self)@.execute_fee_update(now) == Err::<GovernanceView, GovernanceError>(
                    e,
                ) && final(self)@ == old(self)@,
            },
    {
        let ts = match self.fee_timestamp {
            Some(t) => t,
            None => return Err(GovernanceError::NotSet),
        };
        let queued_fee = match self.queued_fee {
            Some(f) => f,
            None => return Err(GovernanceError::NotSet),
        };
        let ready_after = match ts.checked_add(DELAY) {
            Some(t) => t,
            None => return Err(GovernanceError::ArithmeticOverflow),
        };
        if now <= ready_after {
            return Err(GovernanceError::NotReady);
        }
        self.fee = Some(queued_fee);
        Ok(())
    }
}

/// A queued fee update takes effect exactly when more than `DELAY` has passed since it
/// was queued, and then sets the fee to the queued value.
pub proof fn lemma_timelock(pre: GovernanceView, queued_at: u64, new_fee: u32, now: u64)
    requires
        queued_at + DELAY <= u64::MAX,
    ensures
        now <= queued_at + DELAY ==> pre.queue_fee_update(queued_at, new_fee).execute_fee_update(now)
            == Err::<GovernanceView, GovernanceError>(GovernanceError::NotReady),
        now > queued_at + DELAY ==> (pre.queue_fee_update(queued_at, new_fee).execute_fee_update(now)
            matches Ok(post) && post.fee == Some(new_fee)),
{
}

/// A soulbound mark, once minted, stays: no governance operation removes it, and
/// minting it again changes nothing.
pub proof fn lemma_soul_stays(pre: GovernanceView, user: Addr, now: u64, new_fee: u32)
    requires
        pre.souls.contains(user),
    ensures
        pre.queue_fee_update(now, new_fee).souls.contains(user),
        pre.execute_fee_update(now) matches Ok(post) ==> post.souls.contains(user),
        pre.souls.insert(user) == pre.souls,
{
    assert(pre.souls.insert(user) =~= pre.souls);
}

} // verus!
