use connection_manager::outgoing::{
    DialOutcome, OutgoingConfig, OutgoingManager, OutgoingState,
};

/// The test address: 10.0.0.1:35000, packed into a 64-bit key.
const ADDR_A: u64 = (0x0A000001u64 << 16) | 35000;
/// A second address.
const ADDR_B: u64 = (0x0A000002u64 << 16) | 35000;
/// The test peer.
const PEER_P: u64 = 42;
/// The test send handle.
const HANDLE_H: u64 = 777;

fn test_config() -> OutgoingConfig {
    OutgoingConfig {
        retry_attempts: 3,
        base_timeout: 500,
    }
}

fn manager() -> OutgoingManager<u64, u32> {
    OutgoingManager::new(test_config())
}

#[test]
fn happy_path() {
    let mut m = manager();
    let dial = m.learn_addr(ADDR_A, false);
    assert!(dial, "learning a new address must issue a dial");
    m.handle_dial_outcome(DialOutcome::Successful {
        addr: ADDR_A,
        handle: HANDLE_H,
        node_id: PEER_P,
    });
    assert_eq!(m.get_route(PEER_P), Some(&HANDLE_H));
    let entry = m.entry(ADDR_A).expect("address must be known");
    assert!(matches!(
        entry.state,
        OutgoingState::Connected { peer_id: PEER_P, handle: HANDLE_H }
    ));
}

#[test]
fn transient_failure_then_success() {
    let mut m = manager();
    let mut dial_count: u64 = 0;
    if m.learn_addr(ADDR_A, false) {
        dial_count += 1;
    }
    m.handle_dial_outcome(DialOutcome::Failed {
        addr: ADDR_A,
        error: 9,
        when: 100,
    });
    // after one failure the entry waits base_timeout * 2^1 = 1000 ms,
    // so it is due at 1100 ms and not before
    let early = m.perform_housekeeping(600);
    assert!(early.is_empty(), "not yet due at 600 ms");
    let dials = m.perform_housekeeping(1100);
    assert_eq!(dials, vec![ADDR_A]);
    dial_count += dials.len() as u64;
    m.handle_dial_outcome(DialOutcome::Successful {
        addr: ADDR_A,
        handle: HANDLE_H,
        node_id: PEER_P,
    });
    assert_eq!(dial_count, 2, "exactly two dial requests were issued");
    assert_eq!(m.get_route(PEER_P), Some(&HANDLE_H));
}

#[test]
fn exhaustion_forgettable() {
    let mut m = manager();
    assert!(m.learn_addr(ADDR_A, false));
    m.handle_dial_outcome(DialOutcome::Failed {
        addr: ADDR_A,
        error: 9,
        when: 0,
    });
    // due at 0 + 500 * 2^1 = 1000 ms: the retry carries the counter on
    let dials = m.perform_housekeeping(1_000);
    assert_eq!(dials, vec![ADDR_A]);
    m.handle_dial_outcome(DialOutcome::Failed {
        addr: ADDR_A,
        error: 9,
        when: 1_000,
    });
    // the failure count has reached the retry budget of 3
    assert!(matches!(
        m.entry(ADDR_A).unwrap().state,
        OutgoingState::Waiting { failures_so_far: 3, .. }
    ));
    // the next housekeeping pass forgets the exhausted, forgettable entry
    let dials = m.perform_housekeeping(2_000);
    assert!(dials.is_empty());
    assert!(m.entry(ADDR_A).is_none(), "the exhausted entry is forgotten");
    assert_eq!(m.get_route(PEER_P), None);
}

#[test]
fn exhaustion_unforgettable() {
    let mut m = manager();
    assert!(m.learn_addr(ADDR_A, true));
    m.handle_dial_outcome(DialOutcome::Failed {
        addr: ADDR_A,
        error: 9,
        when: 0,
    });
    let dials = m.perform_housekeeping(1_000);
    assert_eq!(dials, vec![ADDR_A]);
    m.handle_dial_outcome(DialOutcome::Failed {
        addr: ADDR_A,
        error: 9,
        when: 1_000,
    });
    assert!(matches!(
        m.entry(ADDR_A).unwrap().state,
        OutgoingState::Waiting { failures_so_far: 3, .. }
    ));
    // exhaustion resets the unforgettable entry instead of forgetting it,
    // with a fresh dial and the failure counter back at zero
    let dials = m.perform_housekeeping(2_000);
    assert_eq!(dials, vec![ADDR_A]);
    let entry = m.entry(ADDR_A).expect("unforgettable entries stay");
    assert!(entry.is_unforgettable);
    assert!(matches!(
        entry.state,
        OutgoingState::Connecting { failures_so_far: 0 }
    ));
}

#[test]
fn block_during_connected() {
    let mut m = manager();
    m.learn_addr(ADDR_A, false);
    m.handle_dial_outcome(DialOutcome::Successful {
        addr: ADDR_A,
        handle: HANDLE_H,
        node_id: PEER_P,
    });
    assert!(m.get_route(PEER_P).is_some());
    m.block_addr(ADDR_A);
    assert_eq!(m.get_route(PEER_P), None);
    let entry = m.entry(ADDR_A).expect("blocked address stays known");
    assert!(matches!(entry.state, OutgoingState::Blocked));
    // no dial is issued by housekeeping, regardless of time
    for now in [0u64, 1_000, 1_000_000, u64::MAX] {
        let dials = m.perform_housekeeping(now);
        assert!(dials.is_empty());
    }
    assert!(matches!(
        m.entry(ADDR_A).unwrap().state,
        OutgoingState::Blocked
    ));
}

#[test]
fn redeem_without_prior_block() {
    let mut m = manager();
    m.learn_addr(ADDR_A, false);
    let dial = m.redeem_addr(ADDR_A);
    assert!(!dial, "redeeming an unblocked address issues no dial");
    let entry = m.entry(ADDR_A).expect("address still known");
    assert!(matches!(
        entry.state,
        OutgoingState::Connecting { failures_so_far: 0 }
    ));
}

#[test]
fn block_then_redeem() {
    let mut m = manager();
    m.learn_addr(ADDR_A, false);
    m.block_addr(ADDR_A);
    assert!(matches!(
        m.entry(ADDR_A).unwrap().state,
        OutgoingState::Blocked
    ));
    let dial = m.redeem_addr(ADDR_A);
    assert!(dial, "redeeming a blocked address dials it again");
    assert!(matches!(
        m.entry(ADDR_A).unwrap().state,
        OutgoingState::Connecting { failures_so_far: 0 }
    ));
}

#[test]
fn learn_is_idempotent() {
    let mut m = manager();
    assert!(m.learn_addr(ADDR_A, false));
    m.handle_dial_outcome(DialOutcome::Successful {
        addr: ADDR_A,
        handle: HANDLE_H,
        node_id: PEER_P,
    });
    let dial = m.learn_addr(ADDR_A, false);
    assert!(!dial, "an already known address is not dialed again");
    assert!(matches!(
        m.entry(ADDR_A).unwrap().state,
        OutgoingState::Connected { .. }
    ));
    assert_eq!(m.get_route(PEER_P), Some(&HANDLE_H));
}

#[test]
fn learn_upgrades_unforgettable_flag() {
    let mut m = manager();
    m.learn_addr(ADDR_A, false);
    assert!(!m.entry(ADDR_A).unwrap().is_unforgettable);
    let dial = m.learn_addr(ADDR_A, true);
    assert!(!dial);
    assert!(m.entry(ADDR_A).unwrap().is_unforgettable);
    // the flag is never downgraded
    m.learn_addr(ADDR_A, false);
    assert!(m.entry(ADDR_A).unwrap().is_unforgettable);
}

#[test]
fn block_unknown_address() {
    let mut m = manager();
    m.block_addr(ADDR_A);
    let entry = m.entry(ADDR_A).expect("blocking creates the entry");
    assert!(matches!(entry.state, OutgoingState::Blocked));
    assert!(!entry.is_unforgettable);
    assert!(!m.learn_addr(ADDR_A, false), "a blocked address is not re-dialed by learn");
    assert!(matches!(
        m.entry(ADDR_A).unwrap().state,
        OutgoingState::Blocked
    ));
}

#[test]
fn loopback_refuses_block() {
    let mut m = manager();
    m.learn_addr(ADDR_A, false);
    m.handle_dial_outcome(DialOutcome::Loopback { addr: ADDR_A });
    assert!(matches!(
        m.entry(ADDR_A).unwrap().state,
        OutgoingState::Loopback
    ));
    m.block_addr(ADDR_A);
    assert!(
        matches!(m.entry(ADDR_A).unwrap().state, OutgoingState::Loopback),
        "blocking ourselves is refused"
    );
    assert!(!m.redeem_addr(ADDR_A), "a loopback entry is not redeemable");
    let dials = m.perform_housekeeping(u64::MAX);
    assert!(dials.is_empty(), "a loopback entry is never dialed again");
}

#[test]
fn failed_outcome_without_connecting_entry() {
    let mut m = manager();
    // an outcome for an entirely unknown address still recovers into Waiting
    m.handle_dial_outcome(DialOutcome::Failed {
        addr: ADDR_A,
        error: 9,
        when: 100,
    });
    assert!(matches!(
        m.entry(ADDR_A).unwrap().state,
        OutgoingState::Waiting { failures_so_far: 1, error: 9, last_failure: 100 }
    ));
    // an outcome against a connected entry restarts the count at one
    m.learn_addr(ADDR_B, false);
    m.handle_dial_outcome(DialOutcome::Successful {
        addr: ADDR_B,
        handle: HANDLE_H,
        node_id: PEER_P,
    });
    m.handle_dial_outcome(DialOutcome::Failed {
        addr: ADDR_B,
        error: 8,
        when: 200,
    });
    assert!(matches!(
        m.entry(ADDR_B).unwrap().state,
        OutgoingState::Waiting { failures_so_far: 1, error: 8, last_failure: 200 }
    ));
    assert_eq!(m.get_route(PEER_P), None, "failing out of Connected drops the route");
}

#[test]
fn failure_counts_on_from_connecting() {
    let mut m = manager();
    m.learn_addr(ADDR_A, false);
    m.handle_dial_outcome(DialOutcome::Failed {
        addr: ADDR_A,
        error: 1,
        when: 0,
    });
    assert!(matches!(
        m.entry(ADDR_A).unwrap().state,
        OutgoingState::Waiting { failures_so_far: 1, .. }
    ));
    // due at 0 + 500 * 2^1 = 1000 ms; the retry keeps counting
    let dials = m.perform_housekeeping(1000);
    assert_eq!(dials, vec![ADDR_A]);
    assert!(matches!(
        m.entry(ADDR_A).unwrap().state,
        OutgoingState::Connecting { failures_so_far: 2 }
    ));
}

#[test]
fn backoff_values() {
    let cfg = test_config();
    assert_eq!(cfg.calc_backoff(0), 500);
    assert_eq!(cfg.calc_backoff(1), 1000);
    assert_eq!(cfg.calc_backoff(2), 2000);
    assert_eq!(cfg.calc_backoff(3), 4000);
    // strictly monotone over the whole retry budget
    let default_cfg = OutgoingConfig::default();
    assert_eq!(default_cfg.retry_attempts, 12);
    assert_eq!(default_cfg.base_timeout, 500);
    for n in 0..default_cfg.retry_attempts {
        assert!(default_cfg.calc_backoff(n) < default_cfg.calc_backoff(n + 1));
    }
    assert_eq!(default_cfg.calc_backoff(12), 500 << 12);
}

#[test]
fn routes_follow_connections() {
    let mut m = manager();
    m.learn_addr(ADDR_A, false);
    m.learn_addr(ADDR_B, false);
    m.handle_dial_outcome(DialOutcome::Successful {
        addr: ADDR_A,
        handle: 1,
        node_id: 1,
    });
    m.handle_dial_outcome(DialOutcome::Successful {
        addr: ADDR_B,
        handle: 2,
        node_id: 2,
    });
    assert_eq!(m.get_route(1), Some(&1));
    assert_eq!(m.get_route(2), Some(&2));
    assert_eq!(m.get_route(3), None);
    m.block_addr(ADDR_A);
    assert_eq!(m.get_route(1), None);
    assert_eq!(m.get_route(2), Some(&2));
}

#[test]
fn manager_default_is_empty() {
    let mut m: OutgoingManager<u64, u32> = OutgoingManager::default();
    assert!(m.entry(ADDR_A).is_none());
    assert_eq!(m.get_route(PEER_P), None);
    assert!(m.perform_housekeeping(0).is_empty());
}

#[test]
fn dial_outcome_addr() {
    let successful: DialOutcome<u64, u32> = DialOutcome::Successful {
        addr: ADDR_A,
        handle: HANDLE_H,
        node_id: PEER_P,
    };
    let failed: DialOutcome<u64, u32> = DialOutcome::Failed {
        addr: ADDR_B,
        error: 9,
        when: 100,
    };
    let loopback: DialOutcome<u64, u32> = DialOutcome::Loopback { addr: ADDR_A };
    assert_eq!(successful.addr(), ADDR_A);
    assert_eq!(failed.addr(), ADDR_B);
    assert_eq!(loopback.addr(), ADDR_A);
}
