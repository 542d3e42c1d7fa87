use call_registry::{Addr, Governance, GovernanceError, DELAY};

fn governance() -> Governance {
    Governance {
        owner: Some(Addr(1)),
        councilor: Some(Addr(2)),
        fee: None,
        queued_fee: None,
        fee_timestamp: None,
        souls: Vec::new(),
    }
}

#[test]
fn roles_are_checked() {
    let g = governance();
    assert_eq!(g.require_owner(Addr(1)), Ok(()));
    assert_eq!(g.require_owner(Addr(2)), Err(GovernanceError::Unauthorized));
    assert_eq!(g.require_councilor(Addr(2)), Ok(()));
    assert_eq!(g.require_councilor(Addr(1)), Err(GovernanceError::Unauthorized));
    let empty = Governance { owner: None, councilor: None, ..governance() };
    assert_eq!(empty.require_owner(Addr(1)), Err(GovernanceError::NotSet));
    assert_eq!(empty.require_councilor(Addr(2)), Err(GovernanceError::NotSet));
}

#[test]
fn fee_update_waits_for_the_delay() {
    assert_eq!(DELAY, 172_800);
    let mut g = governance();
    assert_eq!(g.execute_fee_update(10), Err(GovernanceError::NotSet));
    g.queue_fee_update(1_000, 30);
    assert_eq!(g.execute_fee_update(1_000 + DELAY), Err(GovernanceError::NotReady));
    assert_eq!(g.fee, None);
    assert_eq!(g.execute_fee_update(1_000 + DELAY + 1), Ok(()));
    assert_eq!(g.fee, Some(30));
}

#[test]
fn fee_update_time_overflow_is_refused() {
    let mut g = governance();
    g.queue_fee_update(u64::MAX - 1, 30);
    assert_eq!(g.execute_fee_update(u64::MAX), Err(GovernanceError::ArithmeticOverflow));
    assert_eq!(g.fee, None);
}

#[test]
fn souls_are_minted_once_and_stay() {
    let mut g = governance();
    assert!(!g.has_soul(Addr(7)));
    g.mint_soul(Addr(7));
    g.mint_soul(Addr(7));
    assert!(g.has_soul(Addr(7)));
    assert_eq!(g.souls.len(), 1);
    g.queue_fee_update(5, 1);
    assert!(g.has_soul(Addr(7)));
    assert!(!g.has_soul(Addr(8)));
}
