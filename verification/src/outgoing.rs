//! Management of outgoing connections.
//!
//! Core of this module is the [`OutgoingManager`], a per-address state
//! machine that keeps trying to stay connected to every address it has been
//! handed:
//!
//! * Handed an address via `learn_addr`, it maintains a connection to it,
//!   only giving up after too many failed attempts, after which the address
//!   is forgotten (or reset, if it was marked unforgettable).
//! * `block_addr` and `redeem_addr` maintain an address-keyed block list.
//! * An internal routing table maps authenticated peer identities to
//!   connected addresses; `get_route` retrieves the send handle for a peer.
//!
//! The manager never dials by itself: operations that need a dial attempt
//! return the addresses to dial, and the caller must eventually feed exactly
//! one outcome per request back through `handle_dial_outcome`. The caller
//! must also call `perform_housekeeping` periodically, with the current time,
//! to drive reconnection and garbage collection.
//!
//! Addresses and peer identities are 64-bit keys, compared exactly; packing
//! a transport endpoint into the key, and any canonicalization, is the
//! caller's concern. Times are milliseconds on an arbitrary monotone clock.

use crate::table::{lemma_pair_in_map, Table};
use vstd::arithmetic::mul::{lemma_mul_inequality, lemma_mul_strict_inequality};
use vstd::arithmetic::power2::{lemma2_to64, lemma_pow2_strictly_increases, pow2};
use vstd::bits::lemma_u64_shl_is_mul;
use vstd::prelude::*;

verus! {

/// A transport address, as a 64-bit key.
pub type Addr = u64;

/// An authenticated peer identity, produced by the dialer on a successful
/// handshake. Opaque to the manager.
pub type NodeId = u64;

/// Active state for a connection/address.
pub enum OutgoingState<H, E> {
    /// The outgoing address has been learned and we are currently connecting.
    Connecting {
        /// Number of attempts that failed, so far.
        failures_so_far: u8,
    },
    /// The connection has failed at least one connection attempt and is
    /// waiting for a retry.
    Waiting {
        /// Number of attempts that failed, so far.
        failures_so_far: u8,
        /// The most recent connection error.
        error: E,
        /// The moment, in milliseconds, when the last connection attempt failed.
        last_failure: u64,
    },
    /// An established outgoing connection.
    Connected {
        /// The peer's remote ID.
        peer_id: NodeId,
        /// Handle to a communication channel that can be used to send data to
        /// the peer.
        handle: H,
    },
    /// The address was explicitly blocked and will not be retried.
    Blocked,
    /// The address is a loopback address, connecting to ourselves, and will
    /// not be tried again.
    Loopback,
}

/// An outgoing connection/address in various states.
pub struct Outgoing<H, E> {
    /// Whether or not the address is unforgettable; see `learn_addr`.
    pub is_unforgettable: bool,
    /// The current state the connection/address is in.
    pub state: OutgoingState<H, E>,
}

/// The result of dialing an address.
pub enum DialOutcome<H, E> {
    /// A connection was successfully established.
    Successful {
        /// The address dialed.
        addr: Addr,
        /// A handle to send data down the connection.
        handle: H,
        /// The remote peer's authenticated node ID.
        node_id: NodeId,
    },
    /// The connection attempt failed.
    Failed {
        /// The address dialed.
        addr: Addr,
        /// The error encountered while dialing.
        error: E,
        /// The moment, in milliseconds, the connection attempt failed.
        when: u64,
    },
    /// The connection was aborted, because the remote peer turned out to be
    /// a loopback.
    Loopback {
        /// The address used to connect.
        addr: Addr,
    },
}

impl<H, E> DialOutcome<H, E> {
    /// The address the outcome reports on.
    pub open spec fn spec_addr(self) -> Addr {
        match self {
            DialOutcome::Successful { addr, .. } => addr,
            DialOutcome::Failed { addr, .. } => addr,
            DialOutcome::Loopback { addr, .. } => addr,
        }
    }

    /// Retrieves the address from the `DialOutcome`.
    pub fn addr(&self) -> (a: Addr)
        ensures
            a == self.spec_addr(),
    {
        match self {
            DialOutcome::Successful { addr, .. } => *addr,
            DialOutcome::Failed { addr, .. } => *addr,
            DialOutcome::Loopback { addr, .. } => *addr,
        }
    }
}

/// Connection settings for the outgoing connection manager.
#[derive(Clone, Copy, Debug, PartialEq, Eq, Structural)]
pub struct OutgoingConfig {
    /// The maximum number of attempts before giving up and forgetting an
    /// address, if permitted.
    pub retry_attempts: u8,
    /// The basic time slot, in milliseconds, for exponential backoff when
    /// reconnecting.
    pub base_timeout: u64,
}

impl OutgoingConfig {
    /// The configuration keeps every backoff computation within `u64`.
    pub open spec fn valid(self) -> bool {
        &&& self.base_timeout >= 1
        &&& self.retry_attempts <= 63
        &&& self.base_timeout * pow2(self.retry_attempts as nat) <= u64::MAX
    }

    /// The backoff delay after `n` failed attempts, in milliseconds: the
    /// base timeout, doubled for each failure.
    pub open spec fn backoff_millis(self, n: u8) -> int {
        self.base_timeout * pow2(n as nat)
    }

    /// Whether the configuration keeps every backoff computation within
    /// `u64`; `new` requires this.
    pub fn is_valid(&self) -> (b: bool)
        ensures
            b == self.valid(),
    {
        if self.base_timeout < 1 || self.retry_attempts > 63 {
            return false;
        }
        proof {
            vstd::bits::lemma_u64_pow2_no_overflow(self.retry_attempts as nat);
            lemma_u64_shl_is_mul(1u64, self.retry_attempts as u64);
        }
        let largest_backoff = self.base_timeout.checked_mul(1u64 << self.retry_attempts);
        largest_backoff.is_some()
    }

    /// Calculates the backoff time.
    ///
    /// `failed_attempts` (n) is the number of previous attempts *before* the
    /// current failure (thus starting at 0). The backoff time will be double
    /// for each attempt.
    pub fn calc_backoff(&self, failed_attempts: u8) -> (d: u64)
        requires
            self.valid(),
            failed_attempts <= self.retry_attempts,
        ensures
            d == self.backoff_millis(failed_attempts),
    {
        proof {
            if failed_attempts < self.retry_attempts {
                lemma_pow2_strictly_increases(failed_attempts as nat, self.retry_attempts as nat);
            }
            lemma_mul_inequality(
                pow2(failed_attempts as nat) as int,
                pow2(self.retry_attempts as nat) as int,
                self.base_timeout as int,
            );
            lemma_mul_inequality(1, self.base_timeout as int, pow2(self.retry_attempts as nat) as int);
            lemma_u64_shl_is_mul(1u64, failed_attempts as u64);
        }
        (1u64 << failed_attempts) * self.base_timeout
    }
}

impl Default for OutgoingConfig {
    /// The default configuration retries 12 times, over the course of a
    /// little over 30 minutes.
    fn default() -> (c: Self)
        ensures
            c.retry_attempts == 12,
            c.base_timeout == 500,
            c.valid(),
    {
        proof {
            lemma2_to64();
        }
        OutgoingConfig { retry_attempts: 12, base_timeout: 500 }
    }
}

/// The peer an entry state is connected to, if any.
pub open spec fn connected_peer_of<H, E>(st: OutgoingState<H, E>) -> Option<NodeId> {
    match st {
        OutgoingState::Connected { peer_id, .. } => Some(peer_id),
        _ => None,
    }
}

/// Bounds that every stored failure counter obeys: a `Connecting` entry has
/// seen at most `retry_attempts` failures, and a `Waiting` entry at most one
/// more (the failure that exhausted its budget, not yet collected by
/// housekeeping).
pub open spec fn counters_ok<H, E>(cfg: OutgoingConfig, st: OutgoingState<H, E>) -> bool {
    match st {
        OutgoingState::Connecting { failures_so_far } => failures_so_far <= cfg.retry_attempts,
        OutgoingState::Waiting { failures_so_far, .. } => 1 <= failures_so_far
            <= cfg.retry_attempts + 1,
        _ => true,
    }
}

/// Every routing row points at an entry that is `Connected` to that peer.
pub open spec fn routes_sound<H, E>(
    addrs: Map<Addr, Outgoing<H, E>>,
    routes: Map<NodeId, Addr>,
) -> bool {
    forall|p: NodeId| #[trigger]
        routes.contains_key(p) ==> addrs.contains_key(routes[p]) && connected_peer_of(
            addrs[routes[p]].state,
        ) == Some(p)
}

/// Every `Connected` entry has its own routing row. This can be broken by a
/// successful dial outcome that rebinds a peer already connected through a
/// different address; see `outcome_rebind_ok`.
pub open spec fn routes_complete_for<H, E>(
    addrs: Map<Addr, Outgoing<H, E>>,
    routes: Map<NodeId, Addr>,
) -> bool {
    forall|a: Addr| #[trigger]
        addrs.contains_key(a) ==> match connected_peer_of(addrs[a].state) {
            Some(p) => routes.contains_key(p) && routes[p] == a,
            None => true,
        }
}

/// The state of `addr` before a change, or `None` if the address is unknown.
pub open spec fn prev_state<H, E>(addrs: Map<Addr, Outgoing<H, E>>, addr: Addr) -> Option<
    OutgoingState<H, E>,
> {
    if addrs.contains_key(addr) {
        Some(addrs[addr].state)
    } else {
        None
    }
}

/// The routing reconciliation the transition engine performs for one address
/// change: leaving `Connected` clears the peer's row, entering `Connected`
/// binds it, and a connection replaced by one to a different peer does both.
pub open spec fn reconcile_routes<H, E>(
    routes: Map<NodeId, Addr>,
    prev: Option<OutgoingState<H, E>>,
    new_state: OutgoingState<H, E>,
    addr: Addr,
) -> Map<NodeId, Addr> {
    let p1 = match prev {
        Some(st) => connected_peer_of(st),
        None => None,
    };
    let p2 = connected_peer_of(new_state);
    match (p1, p2) {
        (Some(q1), Some(q2)) => if q1 == q2 {
            routes
        } else {
            routes.remove(q1).insert(q2, addr)
        },
        (Some(q1), None) => routes.remove(q1),
        (None, Some(q2)) => routes.insert(q2, addr),
        (None, None) => routes,
    }
}

/// The address-table update the transition engine performs: the state is
/// replaced, the unforgettable flag of an existing entry is preserved, and a
/// fresh entry starts out forgettable.
pub open spec fn apply_addrs<H, E>(
    addrs: Map<Addr, Outgoing<H, E>>,
    addr: Addr,
    new_state: OutgoingState<H, E>,
) -> Map<Addr, Outgoing<H, E>> {
    let flag = if addrs.contains_key(addr) {
        addrs[addr].is_unforgettable
    } else {
        false
    };
    addrs.insert(addr, Outgoing { is_unforgettable: flag, state: new_state })
}

/// Manager of outbound connections.
///
/// See the module documentation for usage suggestions.
pub struct OutgoingManager<H, E> {
    /// Outgoing connections subsystem configuration.
    config: OutgoingConfig,
    /// Mapping of addresses to their current connection state.
    outgoing: Table<Outgoing<H, E>>,
    /// Routing table.
    ///
    /// Contains a mapping from node IDs to connected addresses. A missing
    /// entry means that the destination is not connected.
    routes: Table<Addr>,
}

impl<H, E> OutgoingManager<H, E> {
    /// The address table: what the manager is doing about each known address.
    pub closed spec fn addrs(self) -> Map<Addr, Outgoing<H, E>> {
        self.outgoing@
    }

    /// The routing table: the address currently connected for each peer.
    pub closed spec fn routing(self) -> Map<NodeId, Addr> {
        self.routes@
    }

    /// The configuration the manager was created with.
    pub closed spec fn spec_config(self) -> OutgoingConfig {
        self.config
    }

    /// Internal consistency: a valid configuration, distinct table keys,
    /// bounded failure counters, and a routing table whose rows all point at
    /// matching `Connected` entries.
    pub closed spec fn wf(self) -> bool {
        &&& self.config.valid()
        &&& self.outgoing.wf()
        &&& self.routes.wf()
        &&& routes_sound(self.addrs(), self.routing())
        &&& forall|a: Addr| #[trigger]
            self.addrs().contains_key(a) ==> counters_ok(self.config, self.addrs()[a].state)
    }

    /// Every `Connected` entry has its routing row.
    pub closed spec fn routes_complete(self) -> bool {
        routes_complete_for(self.addrs(), self.routing())
    }

    /// Creates a new outgoing manager.
    pub fn new(config: OutgoingConfig) -> (m: Self)
        requires
            config.valid(),
        ensures
            m.wf(),
            m.routes_complete(),
            m.spec_config() == config,
            m.addrs() == Map::<Addr, Outgoing<H, E>>::empty(),
            m.routing() == Map::<NodeId, Addr>::empty(),
    {
        OutgoingManager { config, outgoing: Table::new(), routes: Table::new() }
    }

    /// The entry for an address, if the address is known.
    pub fn entry(&self, addr: Addr) -> (r: Option<&Outgoing<H, E>>)
        requires
            self.wf(),
        ensures
            match r {
                Some(o) => self.addrs().contains_key(addr) && *o == self.addrs()[addr],
                None => !self.addrs().contains_key(addr),
            },
    {
        self.outgoing.get(addr)
    }

    /// Changes the state of an outgoing connection.
    ///
    /// Will trigger an update of the routing table if necessary. Does not
    /// emit any other side effects. This is the only place the routing table
    /// is mutated; every operation funnels through it.
    ///
    /// A connection replaced by one to a different peer rebinds the routing
    /// table to the new peer, so that the table stays consistent with the
    /// address table.
    fn change_outgoing_state(&mut self, addr: Addr, new_state: OutgoingState<H, E>)
        requires
            old(self).wf(),
            counters_ok(old(self).spec_config(), new_state),
        ensures
            final (self).wf(),
            final (self).spec_config() == old(self).spec_config(),
            final (self).addrs() == apply_addrs(old(self).addrs(), addr, new_state),
            final (self).routing() == reconcile_routes(
                old(self).routing(),
                prev_state(old(self).addrs(), addr),
                new_state,
                addr,
            ),
    {
        let ghost addrs0 = self.outgoing@;
        let ghost routes0 = self.routes@;
        let new_peer: Option<NodeId> = match &new_state {
            OutgoingState::Connected { peer_id, .. } => Some(*peer_id),
            _ => None,
        };
        let prev = self.outgoing.take(addr);
        let (flag, prev_peer): (bool, Option<NodeId>) = match &prev {
            Some(o) => (
                o.is_unforgettable,
                match &o.state {
                    OutgoingState::Connected { peer_id, .. } => Some(*peer_id),
                    _ => None,
                },
            ),
            None => (false, None),
        };
        self.outgoing.insert(addr, Outgoing { is_unforgettable: flag, state: new_state });
        proof {
            assert(self.outgoing@ =~= apply_addrs(addrs0, addr, new_state));
        }
        match (prev_peer, new_peer) {
            (Some(q1), Some(q2)) => if q1 != q2 {
                let _ = self.routes.take(q1);
                self.routes.insert(q2, addr);
            },
            (Some(q1), None) => {
                let _ = self.routes.take(q1);
            },
            (None, Some(q2)) => {
                self.routes.insert(q2, addr);
            },
            (None, None) => {},
        }
        proof {
            let ghost pst = prev_state(addrs0, addr);
            assert(self.routes@ =~= reconcile_routes(routes0, pst, new_state, addr));
            assert forall|p: NodeId| #[trigger] self.routes@.contains_key(p) implies self.outgoing@
                .contains_key(self.routes@[p]) && connected_peer_of(
                self.outgoing@[self.routes@[p]].state,
            ) == Some(p) by {
                if self.routes@[p] == addr {
                    // the row binds the changed address: only a `Connected`
                    // new state can leave it there
                    if new_peer != Some(p) {
                        assert(routes0.contains_key(p) && routes0[p] == addr);
                        assert(connected_peer_of(addrs0[addr].state) == Some(p));
                        assert(prev_peer == Some(p));
                        assert(false);
                    }
                } else {
                    // the row is untouched and its target entry is unchanged
                    assert(routes0.contains_key(p) && routes0[p] == self.routes@[p]);
                    assert(self.outgoing@[self.routes@[p]] == addrs0[routes0[p]]);
                }
            }
        }
    }

    /// Retrieves a handle to a peer.
    ///
    /// Primary function to send data to peers; clients retrieve a handle to
    /// it which can then be used to send data.
    ///
    /// The handle is returned exactly when the routing table binds the peer
    /// and the bound address's entry is `Connected` to that same peer; the
    /// entry is checked rather than trusted.
    pub fn get_route(&self, peer_id: NodeId) -> (r: Option<&H>)
        requires
            self.wf(),
        ensures
            match r {
                Some(h) => route_lookup(self.addrs(), self.routing(), peer_id) == Some(*h),
                None => route_lookup(self.addrs(), self.routing(), peer_id) is None,
            },
            r is Some <==> self.routing().contains_key(peer_id),
    {
        match self.routes.get(peer_id) {
            Some(a) => {
                let addr = *a;
                match self.outgoing.get(addr) {
                    Some(o) => match &o.state {
                        OutgoingState::Connected { peer_id: q, handle } => if *q == peer_id {
                            Some(handle)
                        } else {
                            None
                        },
                        _ => None,
                    },
                    None => None,
                }
            },
            None => None,
        }
    }

    /// Notify about a potentially new address that has been discovered.
    ///
    /// Returns whether a dial to `addr` must now be issued: an address that
    /// was not known before is immediately connected to. Learning a known
    /// address changes nothing and dials nothing, so learning is idempotent.
    ///
    /// A connection marked `unforgettable` will never be evicted but reset
    /// instead when it exceeds the retry limit; the flag is only ever
    /// upgraded, never downgraded.
    pub fn learn_addr(&mut self, addr: Addr, unforgettable: bool) -> (dial: bool)
        requires
            old(self).wf(),
        ensures
            final (self).wf(),
            final (self).spec_config() == old(self).spec_config(),
            dial == learn_issues_dial(old(self).addrs(), addr),
            final (self).addrs() == learn_addrs_map(old(self).addrs(), addr, unforgettable),
            final (self).routing() == old(self).routing(),
            old(self).routes_complete() ==> final (self).routes_complete(),
    {
        let ghost addrs0 = self.outgoing@;
        let known = self.outgoing.contains_key(addr);
        if !known {
            self.change_outgoing_state(addr, OutgoingState::Connecting { failures_so_far: 0 });
        }
        if unforgettable {
            let prev = self.outgoing.take(addr);
            match prev {
                Some(o) => {
                    self.outgoing.insert(addr, Outgoing { is_unforgettable: true, state: o.state });
                },
                None => {
                    proof {
                        assert(false);
                    }
                },
            }
        }
        proof {
            assert(self.outgoing@ =~= learn_addrs_map(addrs0, addr, unforgettable));
            assert forall|a: Addr| #[trigger]
                self.addrs().contains_key(a) implies counters_ok(
                self.config,
                self.addrs()[a].state,
            ) by {
                if a != addr {
                    assert(self.addrs()[a] == addrs0[a]);
                }
            }
            assert forall|p: NodeId| #[trigger] self.routes@.contains_key(p) implies self.outgoing@
                .contains_key(self.routes@[p]) && connected_peer_of(
                self.outgoing@[self.routes@[p]].state,
            ) == Some(p) by {
                if self.routes@[p] != addr {
                    assert(self.outgoing@[self.routes@[p]] == addrs0[self.routes@[p]]);
                } else {
                    assert(connected_peer_of(addrs0[addr].state) == Some(p));
                    assert(self.outgoing@[addr].state == addrs0[addr].state);
                }
            }
            if routes_complete_for(addrs0, self.routes@) {
                assert forall|a: Addr| #[trigger]
                    self.addrs().contains_key(a) implies match connected_peer_of(
                    self.addrs()[a].state,
                ) {
                    Some(p) => self.routing().contains_key(p) && self.routing()[p] == a,
                    None => true,
                } by {
                    if a != addr {
                        assert(self.addrs()[a] == addrs0[a]);
                    } else {
                        if addrs0.contains_key(addr) {
                            assert(self.addrs()[addr].state == addrs0[addr].state);
                        }
                    }
                }
            }
        }
        !known
    }

    /// Blocks an address.
    ///
    /// Causes any current connection to the address to be terminated and
    /// future ones prohibited: the stored handle is dropped and the peer's
    /// routing row removed. Blocking an already blocked address is a no-op,
    /// and a loopback entry refuses to be blocked. No dial is ever issued.
    pub fn block_addr(&mut self, addr: Addr)
        requires
            old(self).wf(),
        ensures
            final (self).wf(),
            final (self).spec_config() == old(self).spec_config(),
            final (self).addrs() == block_addrs_map(old(self).addrs(), addr),
            final (self).routing() == block_routes_map(
                old(self).addrs(),
                old(self).routing(),
                addr,
            ),
            old(self).routes_complete() ==> final (self).routes_complete(),
    {
        let ghost addrs0 = self.outgoing@;
        let ghost routes0 = self.routes@;
        let do_block: bool = match self.outgoing.get(addr) {
            None => true,
            Some(o) => match &o.state {
                OutgoingState::Blocked => false,
                OutgoingState::Loopback => false,
                _ => true,
            },
        };
        if do_block {
            self.change_outgoing_state(addr, OutgoingState::Blocked);
        }
        proof {
            assert(self.outgoing@ =~= block_addrs_map(addrs0, addr));
            assert(self.routes@ =~= block_routes_map(addrs0, routes0, addr));
            if routes_complete_for(addrs0, routes0) {
                assert forall|a: Addr| #[trigger]
                    self.addrs().contains_key(a) implies match connected_peer_of(
                    self.addrs()[a].state,
                ) {
                    Some(p) => self.routing().contains_key(p) && self.routing()[p] == a,
                    None => true,
                } by {
                    if a != addr && connected_peer_of(self.addrs()[a].state) is Some {
                        let p = connected_peer_of(addrs0[a].state)->Some_0;
                        assert(routes0.contains_key(p) && routes0[p] == a);
                        // the removed row, if any, belongs to the blocked
                        // address's own peer, whose row pointed at `addr`
                        if addrs0.contains_key(addr) && connected_peer_of(addrs0[addr].state)
                            == Some(p) {
                            assert(routes0[p] == addr);
                        }
                    }
                }
            }
        }
    }

    /// Removes an address from the block list.
    ///
    /// Acts only on an address that is currently `Blocked`: the address is
    /// dialed again and becomes a fresh `Connecting` entry. Anything else,
    /// including an unknown address, is left alone, and no dial is issued.
    /// Returns whether a dial to `addr` must now be issued.
    pub fn redeem_addr(&mut self, addr: Addr) -> (dial: bool)
        requires
            old(self).wf(),
        ensures
            final (self).wf(),
            final (self).spec_config() == old(self).spec_config(),
            dial == redeem_issues_dial(old(self).addrs(), addr),
            final (self).addrs() == redeem_addrs_map(old(self).addrs(), addr),
            final (self).routing() == old(self).routing(),
            old(self).routes_complete() ==> final (self).routes_complete(),
    {
        let ghost addrs0 = self.outgoing@;
        let ghost routes0 = self.routes@;
        let do_redeem: bool = match self.outgoing.get(addr) {
            None => false,
            Some(o) => match &o.state {
                OutgoingState::Blocked => true,
                _ => false,
            },
        };
        if do_redeem {
            self.change_outgoing_state(addr, OutgoingState::Connecting { failures_so_far: 0 });
        }
        proof {
            assert(self.outgoing@ =~= redeem_addrs_map(addrs0, addr));
            if routes_complete_for(addrs0, routes0) {
                assert forall|a: Addr| #[trigger]
                    self.addrs().contains_key(a) implies match connected_peer_of(
                    self.addrs()[a].state,
                ) {
                    Some(p) => self.routing().contains_key(p) && self.routing()[p] == a,
                    None => true,
                } by {
                    if a != addr {
                        assert(self.addrs()[a] == addrs0[a]);
                    }
                }
            }
        }
        do_redeem
    }

    /// Handles the outcome of a dialing attempt.
    ///
    /// This is the single sink for dialer results, and it issues no dials
    /// itself: reconnects happen earliest on the next `perform_housekeeping`
    /// call. A success is honored from any prior state, even `Blocked` or
    /// `Loopback`, so that a late success cannot wedge the state machine; a
    /// failure against an entry that was not `Connecting` restarts the
    /// failure count at one, since such an outcome answers no recorded dial.
    pub fn handle_dial_outcome(&mut self, dial_outcome: DialOutcome<H, E>)
        requires
            old(self).wf(),
        ensures
            final (self).wf(),
            final (self).spec_config() == old(self).spec_config(),
            final (self).addrs() == apply_addrs(
                old(self).addrs(),
                dial_outcome.spec_addr(),
                outcome_new_state(old(self).addrs(), dial_outcome),
            ),
            final (self).routing() == reconcile_routes(
                old(self).routing(),
                prev_state(old(self).addrs(), dial_outcome.spec_addr()),
                outcome_new_state(old(self).addrs(), dial_outcome),
                dial_outcome.spec_addr(),
            ),
            old(self).routes_complete() && outcome_rebind_ok(old(self).addrs(), dial_outcome)
                ==> final (self).routes_complete(),
    {
        let ghost addrs0 = self.outgoing@;
        let ghost routes0 = self.routes@;
        let ghost outcome0 = dial_outcome;
        match dial_outcome {
            DialOutcome::Successful { addr, handle, node_id } => {
                self.change_outgoing_state(
                    addr,
                    OutgoingState::Connected { peer_id: node_id, handle },
                );
            },
            DialOutcome::Failed { addr, error, when } => {
                let failures: u8 = match self.outgoing.get(addr) {
                    Some(o) => match &o.state {
                        OutgoingState::Connecting { failures_so_far } => *failures_so_far + 1,
                        _ => 1,
                    },
                    None => 1,
                };
                self.change_outgoing_state(
                    addr,
                    OutgoingState::Waiting { failures_so_far: failures, error, last_failure: when },
                );
            },
            DialOutcome::Loopback { addr } => {
                self.change_outgoing_state(addr, OutgoingState::Loopback);
            },
        }
        proof {
            let addr = outcome0.spec_addr();
            let st = outcome_new_state(addrs0, outcome0);
            if routes_complete_for(addrs0, routes0) && outcome_rebind_ok(addrs0, outcome0) {
                assert forall|a: Addr| #[trigger]
                    self.addrs().contains_key(a) implies match connected_peer_of(
                    self.addrs()[a].state,
                ) {
                    Some(p) => self.routing().contains_key(p) && self.routing()[p] == a,
                    None => true,
                } by {
                    if a != addr && connected_peer_of(self.addrs()[a].state) is Some {
                        let p = connected_peer_of(addrs0[a].state)->Some_0;
                        assert(routes0.contains_key(p) && routes0[p] == a);
                        if addrs0.contains_key(addr) && connected_peer_of(addrs0[addr].state)
                            == Some(p) {
                            assert(routes0[p] == addr);
                        }
                        if connected_peer_of(st) == Some(p) {
                            assert(addrs0.contains_key(a) && connected_peer_of(addrs0[a].state)
                                == Some(p));
                            assert(false);
                        }
                    }
                }
            }
        }
    }

    /// Performs housekeeping like reconnection and garbage collection.
    ///
    /// This function must periodically be called; a good interval is every
    /// second. Only `Waiting` entries are considered: an entry whose retry
    /// budget is exhausted is forgotten — or, if unforgettable, reset to a
    /// fresh `Connecting` entry — and an entry whose backoff delay has passed
    /// is retried, keeping its failure count. Returns the addresses to dial,
    /// one per entry that was put into `Connecting`, without duplicates.
    pub fn perform_housekeeping(&mut self, now: u64) -> (dials: Vec<Addr>)
        requires
            old(self).wf(),
        ensures
            final (self).wf(),
            final (self).spec_config() == old(self).spec_config(),
            final (self).addrs() == hk_addrs_map(old(self).spec_config(), old(self).addrs(), now),
            final (self).routing() == old(self).routing(),
            old(self).routes_complete() ==> final (self).routes_complete(),
            dials@.no_duplicates(),
            forall|a: Addr| #[trigger]
                dials@.contains(a) <==> old(self).addrs().contains_key(a) && hk_redials(
                    old(self).spec_config(),
                    old(self).addrs()[a],
                    now,
                ),
    {
        let ghost cfg = self.config;
        let ghost s = self.outgoing.pairs();
        let ghost addrs0 = self.outgoing@;
        let ghost routes0 = self.routes@;
        proof {
            self.outgoing.lemma_view_is_pairs_map();
        }
        let mut to_forget: Vec<Addr> = Vec::new();
        let mut to_reconnect: Vec<(Addr, u8)> = Vec::new();
        let mut i: usize = 0;
        while i < self.outgoing.len()
            invariant
                self.config == cfg,
                self.config.valid(),
                self.outgoing.wf(),
                self.routes.wf(),
                self.outgoing.pairs() == s,
                self.outgoing@ == addrs0,
                self.routes@ == routes0,
                routes_sound(addrs0, routes0),
                forall|a: Addr| #[trigger]
                    addrs0.contains_key(a) ==> counters_ok(cfg, addrs0[a].state),
                i <= s.len(),
                forall|j: int|
                    0 <= j < i ==> (hk_forgets(cfg, (#[trigger] s[j]).1) ==> to_forget@.contains(
                        s[j].0,
                    )),
                forall|j: int|
                    0 <= j < i ==> (hk_redials(cfg, (#[trigger] s[j]).1, now)
                        ==> to_reconnect@.contains((s[j].0, hk_counter(cfg, s[j].1)))),
                forall|x: Addr| #[trigger]
                    to_forget@.contains(x) ==> exists|j: int|
                        0 <= j < i && (#[trigger] s[j]).0 == x && hk_forgets(cfg, s[j].1),
                forall|pr: (Addr, u8)| #[trigger]
                    to_reconnect@.contains(pr) ==> exists|j: int|
                        0 <= j < i && (#[trigger] s[j]).0 == pr.0 && hk_redials(cfg, s[j].1, now)
                            && pr.1 == hk_counter(cfg, s[j].1),
                to_forget@.no_duplicates(),
                forall|j1: int, j2: int|
                    0 <= j1 < j2 < to_reconnect@.len() ==> (#[trigger] to_reconnect@[j1]).0 != (
                    #[trigger] to_reconnect@[j2]).0,
            decreases s.len() - i,
        {
            let a = self.outgoing.key_at(i);
            let mut forget_now = false;
            let mut reconnect_now = false;
            let mut counter: u8 = 0;
            let entry = self.outgoing.value_at(i);
            let unforgettable = entry.is_unforgettable;
            match &entry.state {
                OutgoingState::Waiting { failures_so_far, last_failure, .. } => {
                    let n = *failures_so_far;
                    let lf = *last_failure;
                    if n >= self.config.retry_attempts {
                        if unforgettable {
                            // Unforgettable addresses simply have their timer reset.
                            reconnect_now = true;
                        } else {
                            // Address had too many attempts at reconnection;
                            // forget it.
                            forget_now = true;
                        }
                    } else {
                        // The address has not exceeded the limit, so check
                        // whether it is due.
                        proof {
                            lemma_pair_in_map(s, i as int);
                        }
                        let backoff = self.config.calc_backoff(n);
                        if now >= lf && now - lf >= backoff {
                            reconnect_now = true;
                            counter = n + 1;
                        }
                    }
                },
                _ => {
                    // Entry is ignored.
                },
            }
            proof {
                lemma_pair_in_map(s, i as int);
                assert(forget_now == hk_forgets(cfg, s[i as int].1));
                assert(reconnect_now == hk_redials(cfg, s[i as int].1, now));
                if reconnect_now {
                    assert(counter == hk_counter(cfg, s[i as int].1));
                }
            }
            let ghost tf0 = to_forget@;
            let ghost tr0 = to_reconnect@;
            if forget_now {
                proof {
                    if to_forget@.contains(a) {
                        let j = choose|j: int|
                            0 <= j < i && (#[trigger] s[j]).0 == a && hk_forgets(cfg, s[j].1);
                        assert(s[j].0 == s[i as int].0);
                        assert(false);
                    }
                }
                to_forget.push(a);
            }
            if reconnect_now {
                proof {
                    assert forall|j1: int|
                        0 <= j1 < to_reconnect@.len() implies (#[trigger] to_reconnect@[j1]).0
                        != a by {
                        assert(to_reconnect@.contains(to_reconnect@[j1]));
                        let j = choose|j: int|
                            0 <= j < i && (#[trigger] s[j]).0 == to_reconnect@[j1].0 && hk_redials(
                                cfg,
                                s[j].1,
                                now,
                            ) && to_reconnect@[j1].1 == hk_counter(cfg, s[j].1);
                        assert(s[j].0 != s[i as int].0);
                    }
                }
                to_reconnect.push((a, counter));
            }
            proof {
                assert forall|x: Addr| tf0.contains(x) implies to_forget@.contains(x) by {
                    let j = choose|j: int| 0 <= j < tf0.len() && tf0[j] == x;
                    assert(to_forget@[j] == x);
                };
                assert forall|pr: (Addr, u8)| tr0.contains(pr) implies to_reconnect@.contains(
                    pr,
                ) by {
                    let j = choose|j: int| 0 <= j < tr0.len() && tr0[j] == pr;
                    assert(to_reconnect@[j] == pr);
                };
                assert forall|x: Addr| #[trigger]
                    to_forget@.contains(x) implies exists|j: int|
                    0 <= j <= i && (#[trigger] s[j]).0 == x && hk_forgets(cfg, s[j].1) by {
                    let j = choose|j: int| 0 <= j < to_forget@.len() && to_forget@[j] == x;
                    if j < tf0.len() {
                        assert(tf0.contains(x));
                    } else {
                        assert(x == a && forget_now);
                        assert(s[i as int].0 == x && hk_forgets(cfg, s[i as int].1));
                    }
                };
                assert forall|pr: (Addr, u8)| #[trigger]
                    to_reconnect@.contains(pr) implies exists|j: int|
                    0 <= j <= i && (#[trigger] s[j]).0 == pr.0 && hk_redials(cfg, s[j].1, now)
                        && pr.1 == hk_counter(cfg, s[j].1) by {
                    let j = choose|j: int| 0 <= j < to_reconnect@.len() && to_reconnect@[j] == pr;
                    if j < tr0.len() {
                        assert(tr0.contains(pr));
                    } else {
                        assert(pr == (a, counter) && reconnect_now);
                        assert(s[i as int].0 == pr.0 && hk_redials(cfg, s[i as int].1, now));
                    }
                };
                if forget_now {
                    assert(to_forget@.contains(s[i as int].0)) by {
                        assert(to_forget@.last() == a);
                    }
                }
                if reconnect_now {
                    assert(to_reconnect@.contains((s[i as int].0, hk_counter(cfg, s[i as int].1))))
                        by {
                        assert(to_reconnect@.last() == (a, counter));
                    }
                }
            }
            i += 1;
        }
        // Remove all addresses marked for forgetting. Their routing rows, if
        // any, were already removed when they left `Connected`.
        let ghost forgets = to_forget@;
        let ghost reconnects = to_reconnect@;
        proof {
            assert(forgets.take(0int) =~= Seq::<Addr>::empty());
        }
        let mut m: usize = 0;
        while m < to_forget.len()
            invariant
                self.config == cfg,
                self.config.valid(),
                self.outgoing.wf(),
                self.routes.wf(),
                self.routes@ == routes0,
                m <= forgets.len(),
                to_forget@ == forgets,
                forall|x: Addr| #[trigger]
                    forgets.contains(x) ==> addrs0.contains_key(x) && hk_forgets(cfg, addrs0[x]),
                forgets.no_duplicates(),
                forall|a: Addr| #[trigger]
                    self.outgoing@.contains_key(a) ==> addrs0.contains_key(a) && self.outgoing@[a]
                        == addrs0[a] && !forgets.take(m as int).contains(a),
                forall|a: Addr|
                    addrs0.contains_key(a) && !forgets.take(m as int).contains(a)
                        ==> self.outgoing@.contains_key(a),
                forall|a: Addr| #[trigger]
                    addrs0.contains_key(a) ==> counters_ok(cfg, addrs0[a].state),
                routes_sound(self.outgoing@, routes0),
            decreases forgets.len() - m,
        {
            let a = to_forget[m];
            let ghost before = self.outgoing@;
            proof {
                assert(forgets.contains(forgets[m as int]));
                assert(!forgets.take(m as int).contains(a)) by {
                    if forgets.take(m as int).contains(a) {
                        let j = choose|j: int|
                            0 <= j < m && forgets.take(m as int)[j] == a;
                        assert(forgets[j] == forgets[m as int]);
                        assert(false);
                    }
                }
                assert(before.contains_key(a));
            }
            let removed = self.outgoing.take(a);
            proof {
                assert(removed is Some);
                assert(self.outgoing@ == before.remove(a));
                assert(forgets.take(m as int + 1) =~= forgets.take(m as int).push(
                    forgets[m as int],
                ));
                assert forall|a2: Addr|
                    addrs0.contains_key(a2) && !forgets.take(m as int + 1).contains(
                        a2,
                    ) implies self.outgoing@.contains_key(a2) by {
                    assert(!forgets.take(m as int).contains(a2)) by {
                        if forgets.take(m as int).contains(a2) {
                            let j = choose|j: int|
                                0 <= j < m && forgets.take(m as int)[j] == a2;
                            assert(forgets.take(m as int + 1)[j] == a2);
                        }
                    }
                    assert(a2 != a) by {
                        assert(forgets.take(m as int + 1).last() == a);
                    }
                };
                assert forall|p: NodeId| #[trigger] routes0.contains_key(p) implies self.outgoing@
                    .contains_key(routes0[p]) && connected_peer_of(
                    self.outgoing@[routes0[p]].state,
                ) == Some(p) by {
                    assert(before.contains_key(routes0[p]));
                    assert(routes0[p] != a) by {
                        if routes0[p] == a {
                            assert(connected_peer_of(before[a].state) == Some(p));
                            assert(before[a] == addrs0[a]);
                            assert(hk_forgets(cfg, addrs0[a]));
                        }
                    }
                }
            }
            m += 1;
        }
        proof {
            assert(forgets.take(forgets.len() as int) =~= forgets);
        }
        // Reconnect all others, collecting the dial requests.
        let mut dials: Vec<Addr> = Vec::new();
        let mut m2: usize = 0;
        while m2 < to_reconnect.len()
            invariant
                self.config == cfg,
                self.wf(),
                self.routes@ == routes0,
                m2 <= reconnects.len(),
                to_reconnect@ == reconnects,
                dials@.len() == m2,
                forall|j: int| 0 <= j < m2 ==> dials@[j] == (#[trigger] reconnects[j]).0,
                forall|pr: (Addr, u8)| #[trigger]
                    reconnects.contains(pr) ==> addrs0.contains_key(pr.0) && hk_redials(
                        cfg,
                        addrs0[pr.0],
                        now,
                    ) && pr.1 == hk_counter(cfg, addrs0[pr.0]),
                forall|j1: int, j2: int|
                    0 <= j1 < j2 < reconnects.len() ==> (#[trigger] reconnects[j1]).0 != (
                    #[trigger] reconnects[j2]).0,
                forall|x: Addr| #[trigger]
                    forgets.contains(x) ==> addrs0.contains_key(x) && hk_forgets(cfg, addrs0[x]),
                forall|a: Addr| #[trigger]
                    addrs0.contains_key(a) && hk_forgets(cfg, addrs0[a]) ==> forgets.contains(a),
                forall|a: Addr| #[trigger]
                    self.outgoing@.contains_key(a) <==> addrs0.contains_key(a)
                        && !forgets.contains(a),
                forall|j: int|
                    0 <= j < m2 ==> {
                        let pr = #[trigger] reconnects[j];
                        self.outgoing@.contains_key(pr.0) && self.outgoing@[pr.0]
                            == (Outgoing::<H, E> {
                            is_unforgettable: addrs0[pr.0].is_unforgettable,
                            state: OutgoingState::Connecting { failures_so_far: pr.1 },
                        })
                    },
                forall|a: Addr|
                    #![trigger self.outgoing@[a]]
                    self.outgoing@.contains_key(a) && !(exists|j: int|
                        0 <= j < m2 && (#[trigger] reconnects[j]).0 == a) ==> self.outgoing@[a]
                        == addrs0[a],
            decreases reconnects.len() - m2,
        {
            let pr = to_reconnect[m2];
            let a = pr.0;
            let c = pr.1;
            let ghost before = self.outgoing@;
            proof {
                assert(reconnects.contains(reconnects[m2 as int]));
                assert(!hk_forgets(cfg, addrs0[a]));
                assert(before.contains_key(a));
                assert(before[a] == addrs0[a]) by {
                    if exists|j: int| 0 <= j < m2 && (#[trigger] reconnects[j]).0 == a {
                        let j = choose|j: int| 0 <= j < m2 && (#[trigger] reconnects[j]).0 == a;
                        assert(false);
                    }
                }
                assert(counters_ok(cfg, addrs0[a].state));
                assert(c <= cfg.retry_attempts);
                assert(connected_peer_of(addrs0[a].state) is None);
            }
            self.change_outgoing_state(a, OutgoingState::Connecting { failures_so_far: c });
            dials.push(a);
            proof {
                assert(self.outgoing@ =~= before.insert(
                    a,
                    Outgoing {
                        is_unforgettable: addrs0[a].is_unforgettable,
                        state: OutgoingState::Connecting { failures_so_far: c },
                    },
                ));
                assert(self.routes@ == routes0);
            }
            m2 += 1;
        }
        proof {
            assert(self.outgoing@ =~= hk_addrs_map(cfg, addrs0, now)) by {
                assert forall|a: Addr| #[trigger]
                    addrs0.contains_key(a) && !hk_forgets(cfg, addrs0[a]) && hk_redials(
                        cfg,
                        addrs0[a],
                        now,
                    ) implies self.outgoing@.contains_key(a) && self.outgoing@[a]
                    == (Outgoing::<H, E> {
                    is_unforgettable: addrs0[a].is_unforgettable,
                    state: OutgoingState::Connecting { failures_so_far: hk_counter(cfg, addrs0[a]) },
                }) by {
                    let j0 = choose|j: int| 0 <= j < s.len() && s[j].0 == a;
                    lemma_pair_in_map(s, j0);
                    assert(reconnects.contains((a, hk_counter(cfg, addrs0[a]))));
                    let j = choose|j: int|
                        0 <= j < reconnects.len() && (#[trigger] reconnects[j]).0 == a;
                    assert(reconnects.contains(reconnects[j]));
                    assert(reconnects[j] == (a, hk_counter(cfg, addrs0[a])));
                };
                assert forall|a: Addr| #[trigger]
                    addrs0.contains_key(a) && !hk_forgets(cfg, addrs0[a]) && !hk_redials(
                        cfg,
                        addrs0[a],
                        now,
                    ) implies self.outgoing@.contains_key(a) && self.outgoing@[a] == addrs0[a] by {
                    if exists|j: int| 0 <= j < reconnects.len() && (#[trigger] reconnects[j]).0
                        == a {
                        let j = choose|j: int|
                            0 <= j < reconnects.len() && (#[trigger] reconnects[j]).0 == a;
                        assert(reconnects.contains(reconnects[j]));
                        assert(false);
                    }
                };
            }
            assert(dials@.no_duplicates()) by {
                assert forall|j1: int, j2: int|
                    0 <= j1 < j2 < dials@.len() implies dials@[j1] != dials@[j2] by {
                    assert(dials@[j1] == reconnects[j1].0 && dials@[j2] == reconnects[j2].0);
                }
            }
            assert forall|a: Addr| #[trigger]
                dials@.contains(a) <==> addrs0.contains_key(a) && hk_redials(
                    cfg,
                    addrs0[a],
                    now,
                ) by {
                if dials@.contains(a) {
                    let j = choose|j: int| 0 <= j < dials@.len() && dials@[j] == a;
                    assert(reconnects.contains(reconnects[j]));
                    assert(reconnects[j].0 == a);
                }
                if addrs0.contains_key(a) && hk_redials(cfg, addrs0[a], now) {
                    let j0 = choose|j: int| 0 <= j < s.len() && s[j].0 == a;
                    lemma_pair_in_map(s, j0);
                    assert(reconnects.contains((a, hk_counter(cfg, addrs0[a]))));
                    let j = choose|j: int|
                        0 <= j < reconnects.len() && reconnects[j] == (
                        a,
                        hk_counter(cfg, addrs0[a]),
                        );
                    assert(dials@[j] == a);
                    assert(dials@.contains(a));
                }
            }
            if routes_complete_for(addrs0, routes0) {
                assert forall|a: Addr| #[trigger]
                    self.addrs().contains_key(a) implies match connected_peer_of(
                    self.addrs()[a].state,
                ) {
                    Some(p) => self.routing().contains_key(p) && self.routing()[p] == a,
                    None => true,
                } by {
                    if connected_peer_of(self.addrs()[a].state) is Some {
                        assert(self.addrs()[a] == addrs0[a]);
                    }
                }
            }
        }
        dials
    }
}

/// The address-table change `learn_addr` makes: a known address keeps its
/// state and can only have its unforgettable flag upgraded; an unknown one
/// becomes a fresh `Connecting` entry.
pub open spec fn learn_addrs_map<H, E>(
    addrs: Map<Addr, Outgoing<H, E>>,
    addr: Addr,
    unforgettable: bool,
) -> Map<Addr, Outgoing<H, E>> {
    if addrs.contains_key(addr) {
        addrs.insert(
            addr,
            Outgoing {
                is_unforgettable: addrs[addr].is_unforgettable || unforgettable,
                state: addrs[addr].state,
            },
        )
    } else {
        addrs.insert(
            addr,
            Outgoing {
                is_unforgettable: unforgettable,
                state: OutgoingState::Connecting { failures_so_far: 0 },
            },
        )
    }
}

/// `learn_addr` dials exactly the addresses it did not know yet.
pub open spec fn learn_issues_dial<H, E>(addrs: Map<Addr, Outgoing<H, E>>, addr: Addr) -> bool {
    !addrs.contains_key(addr)
}

/// The address-table change `block_addr` makes: an unknown address becomes a
/// fresh `Blocked` entry; an already blocked entry, and the loopback entry
/// (which refuses to be blocked), are left alone; anything else becomes
/// `Blocked` with its flag kept.
pub open spec fn block_addrs_map<H, E>(addrs: Map<Addr, Outgoing<H, E>>, addr: Addr) -> Map<
    Addr,
    Outgoing<H, E>,
> {
    if !addrs.contains_key(addr) {
        addrs.insert(addr, Outgoing { is_unforgettable: false, state: OutgoingState::Blocked })
    } else {
        match addrs[addr].state {
            OutgoingState::Blocked => addrs,
            OutgoingState::Loopback => addrs,
            _ => addrs.insert(
                addr,
                Outgoing {
                    is_unforgettable: addrs[addr].is_unforgettable,
                    state: OutgoingState::Blocked,
                },
            ),
        }
    }
}

/// The routing-table change `block_addr` makes: blocking a connected address
/// drops its peer's row; nothing else changes.
pub open spec fn block_routes_map<H, E>(
    addrs: Map<Addr, Outgoing<H, E>>,
    routes: Map<NodeId, Addr>,
    addr: Addr,
) -> Map<NodeId, Addr> {
    if addrs.contains_key(addr) {
        match connected_peer_of(addrs[addr].state) {
            Some(p) => routes.remove(p),
            None => routes,
        }
    } else {
        routes
    }
}

/// The address-table change `redeem_addr` makes: only a `Blocked` entry is
/// acted on, becoming a fresh `Connecting` entry with its flag kept.
pub open spec fn redeem_addrs_map<H, E>(addrs: Map<Addr, Outgoing<H, E>>, addr: Addr) -> Map<
    Addr,
    Outgoing<H, E>,
> {
    if addrs.contains_key(addr) && addrs[addr].state is Blocked {
        addrs.insert(
            addr,
            Outgoing {
                is_unforgettable: addrs[addr].is_unforgettable,
                state: OutgoingState::Connecting { failures_so_far: 0 },
            },
        )
    } else {
        addrs
    }
}

/// `redeem_addr` dials exactly the addresses it redeems.
pub open spec fn redeem_issues_dial<H, E>(addrs: Map<Addr, Outgoing<H, E>>, addr: Addr) -> bool {
    addrs.contains_key(addr) && addrs[addr].state is Blocked
}

/// The state a dial outcome drives its address into: a success connects, a
/// failure puts the address into `Waiting` — counting on from `Connecting`,
/// restarting at one failure from any other state, which an outcome should
/// not reach — and a loopback report retires it.
pub open spec fn outcome_new_state<H, E>(
    addrs: Map<Addr, Outgoing<H, E>>,
    outcome: DialOutcome<H, E>,
) -> OutgoingState<H, E> {
    match outcome {
        DialOutcome::Successful { addr, handle, node_id } => OutgoingState::Connected {
            peer_id: node_id,
            handle,
        },
        DialOutcome::Failed { addr, error, when } => {
            let failures: u8 = match prev_state(addrs, addr) {
                Some(OutgoingState::Connecting { failures_so_far }) => (failures_so_far + 1) as u8,
                _ => 1u8,
            };
            OutgoingState::Waiting { failures_so_far: failures, error, last_failure: when }
        },
        DialOutcome::Loopback { addr } => OutgoingState::Loopback,
    }
}

/// A successful outcome that does not rebind a peer connected through
/// another address. Outcomes that violate this are still processed, but may
/// leave a connected entry without a routing row (the peer's row moves to
/// the newly connected address).
pub open spec fn outcome_rebind_ok<H, E>(
    addrs: Map<Addr, Outgoing<H, E>>,
    outcome: DialOutcome<H, E>,
) -> bool {
    match outcome {
        DialOutcome::Successful { addr, node_id, .. } => forall|a: Addr| #[trigger]
            addrs.contains_key(a) && connected_peer_of(addrs[a].state) == Some(node_id) ==> a
                == addr,
        _ => true,
    }
}

/// A `Waiting` entry that has used up its whole retry budget.
pub open spec fn waiting_exhausted<H, E>(cfg: OutgoingConfig, o: Outgoing<H, E>) -> bool {
    match o.state {
        OutgoingState::Waiting { failures_so_far, .. } => failures_so_far >= cfg.retry_attempts,
        _ => false,
    }
}

/// A `Waiting` entry, within its retry budget, whose backoff delay has
/// passed by `now`.
pub open spec fn waiting_due<H, E>(cfg: OutgoingConfig, o: Outgoing<H, E>, now: u64) -> bool {
    match o.state {
        OutgoingState::Waiting { failures_so_far, last_failure, .. } => failures_so_far
            < cfg.retry_attempts && now >= last_failure + cfg.backoff_millis(failures_so_far),
        _ => false,
    }
}

/// Housekeeping forgets exhausted entries that are forgettable.
pub open spec fn hk_forgets<H, E>(cfg: OutgoingConfig, o: Outgoing<H, E>) -> bool {
    waiting_exhausted(cfg, o) && !o.is_unforgettable
}

/// Housekeeping dials again: exhausted-but-unforgettable entries are reset,
/// due entries are retried.
pub open spec fn hk_redials<H, E>(cfg: OutgoingConfig, o: Outgoing<H, E>, now: u64) -> bool {
    (waiting_exhausted(cfg, o) && o.is_unforgettable) || waiting_due(cfg, o, now)
}

/// The failure counter a redialed entry carries into `Connecting`: a reset
/// starts over at zero, a due retry keeps counting.
pub open spec fn hk_counter<H, E>(cfg: OutgoingConfig, o: Outgoing<H, E>) -> u8 {
    if waiting_exhausted(cfg, o) {
        0u8
    } else {
        match o.state {
            OutgoingState::Waiting { failures_so_far, .. } => (failures_so_far + 1) as u8,
            _ => 0u8,
        }
    }
}

/// The address table after one housekeeping pass at `now`.
pub open spec fn hk_addrs_map<H, E>(
    cfg: OutgoingConfig,
    addrs: Map<Addr, Outgoing<H, E>>,
    now: u64,
) -> Map<Addr, Outgoing<H, E>> {
    Map::new(
        |a: Addr| addrs.contains_key(a) && !hk_forgets(cfg, addrs[a]),
        |a: Addr|
            if hk_redials(cfg, addrs[a], now) {
                Outgoing {
                    is_unforgettable: addrs[a].is_unforgettable,
                    state: OutgoingState::Connecting { failures_so_far: hk_counter(cfg, addrs[a]) },
                }
            } else {
                addrs[a]
            },
    )
}

impl<H, E> Default for OutgoingManager<H, E> {
    /// A manager with the default configuration and no known addresses.
    fn default() -> (m: Self)
        ensures
            m.wf(),
            m.routes_complete(),
            m.spec_config() == (OutgoingConfig { retry_attempts: 12, base_timeout: 500 }),
            m.addrs() == Map::<Addr, Outgoing<H, E>>::empty(),
            m.routing() == Map::<NodeId, Addr>::empty(),
    {
        OutgoingManager::new(OutgoingConfig::default())
    }
}

/// The set of addresses whose entry is `Connected`.
pub open spec fn connected_addr_set<H, E>(addrs: Map<Addr, Outgoing<H, E>>) -> Set<Addr> {
    addrs.dom().filter(|a: Addr| connected_peer_of(addrs[a].state) is Some)
}

/// The routing table is exactly as large as the set of connected addresses:
/// peer identities are matched to connected addresses one-to-one, each row's
/// peer being the one its address is connected to.
pub proof fn lemma_route_count<H, E>(m: OutgoingManager<H, E>)
    requires
        m.wf(),
        m.routes_complete(),
    ensures
        m.routing().dom().finite(),
        connected_addr_set(m.addrs()).finite(),
        m.routing().dom().len() == connected_addr_set(m.addrs()).len(),
{
    m.routes.lemma_dom_finite();
    m.outgoing.lemma_dom_finite();
    let routes = m.routing();
    let addrs = m.addrs();
    assert(routes.is_injective()) by {
        assert forall|p1: NodeId, p2: NodeId|
            p1 != p2 && routes.dom().contains(p1) && routes.dom().contains(
                p2,
            ) implies #[trigger] routes[p1] != #[trigger] routes[p2] by {
            assert(connected_peer_of(addrs[routes[p1]].state) == Some(p1));
            assert(connected_peer_of(addrs[routes[p2]].state) == Some(p2));
        }
    }
    routes.lemma_injective_values_len();
    assert(routes.values() =~= connected_addr_set(addrs)) by {
        assert forall|a: Addr| #[trigger]
            connected_addr_set(addrs).contains(a) implies routes.values().contains(a) by {
            let p = connected_peer_of(addrs[a].state)->Some_0;
            assert(routes.contains_key(p) && routes[p] == a);
            assert(routes.contains_value(a));
        };
        assert forall|a: Addr| routes.values().contains(a) implies connected_addr_set(
            addrs,
        ).contains(a) by {
            let p = choose|p: NodeId| #[trigger] routes.contains_key(p) && routes[p] == a;
            assert(connected_peer_of(addrs[a].state) == Some(p));
        };
    }
    vstd::set_lib::lemma_len_subset(connected_addr_set(addrs), addrs.dom());
}

/// One dial per transition into `Connecting`: a housekeeping pass returns
/// exactly as many dial requests as entries it redials. Together with the
/// contract of `perform_housekeeping` — whose result this lemma takes — and
/// the dial flags of `learn_addr` and `redeem_addr`, every dial request
/// matches one transition into `Connecting`.
pub proof fn lemma_housekeeping_dial_count<H, E>(
    cfg: OutgoingConfig,
    addrs: Map<Addr, Outgoing<H, E>>,
    now: u64,
    dials: Seq<Addr>,
)
    requires
        addrs.dom().finite(),
        dials.no_duplicates(),
        forall|a: Addr| #[trigger]
            dials.contains(a) <==> addrs.contains_key(a) && hk_redials(cfg, addrs[a], now),
    ensures
        dials.len() == addrs.dom().filter(|a: Addr| hk_redials(cfg, addrs[a], now)).len(),
{
    let redialed = addrs.dom().filter(|a: Addr| hk_redials(cfg, addrs[a], now));
    dials.unique_seq_to_set();
    assert(dials.to_set() =~= redialed);
}

/// Every stored failure counter is bounded by the retry budget: a
/// `Connecting` entry has failed at most `retry_attempts` times, and a
/// `Waiting` entry at most once more — the failure that exhausted its
/// budget, which the next housekeeping pass collects.
pub proof fn lemma_failure_counter_bounded<H, E>(m: OutgoingManager<H, E>, a: Addr)
    requires
        m.wf(),
        m.addrs().contains_key(a),
    ensures
        counters_ok(m.spec_config(), m.addrs()[a].state),
{
}

/// `Blocked` and `Loopback` entries have no routing-table row.
pub proof fn lemma_blocked_unrouted<H, E>(m: OutgoingManager<H, E>, a: Addr)
    requires
        m.wf(),
        m.addrs().contains_key(a),
        m.addrs()[a].state is Blocked || m.addrs()[a].state is Loopback,
    ensures
        forall|p: NodeId| #[trigger] m.routing().contains_key(p) ==> m.routing()[p] != a,
{
    assert forall|p: NodeId| #[trigger] m.routing().contains_key(p) implies m.routing()[p] != a by {
        if m.routing()[p] == a {
            assert(connected_peer_of(m.addrs()[a].state) == Some(p));
        }
    }
}

/// Learning an address twice is indistinguishable from learning it once:
/// the second learn changes nothing and issues no dial.
pub proof fn lemma_learn_idempotent<H, E>(
    addrs: Map<Addr, Outgoing<H, E>>,
    addr: Addr,
    unforgettable: bool,
)
    ensures
        learn_addrs_map(learn_addrs_map(addrs, addr, unforgettable), addr, unforgettable)
            == learn_addrs_map(addrs, addr, unforgettable),
        !learn_issues_dial(learn_addrs_map(addrs, addr, unforgettable), addr),
{
    let once = learn_addrs_map(addrs, addr, unforgettable);
    assert(learn_addrs_map(once, addr, unforgettable) =~= once);
}

/// Blocking cancels the route: if a peer has a send handle and the address
/// it is routed through is then blocked, the peer has no handle afterwards.
pub proof fn lemma_block_cancels_route<H, E>(
    addrs: Map<Addr, Outgoing<H, E>>,
    routes: Map<NodeId, Addr>,
    peer_id: NodeId,
    h: H,
)
    requires
        route_lookup(addrs, routes, peer_id) == Some(h),
    ensures
        route_lookup(
            block_addrs_map(addrs, routes[peer_id]),
            block_routes_map(addrs, routes, routes[peer_id]),
            peer_id,
        ) is None,
{
}

/// Redeeming right after blocking leaves the address freshly connecting,
/// with a dial issued — provided the address was not the loopback entry,
/// which refuses to be blocked (and is then not redeemable either).
pub proof fn lemma_block_then_redeem<H, E>(addrs: Map<Addr, Outgoing<H, E>>, addr: Addr)
    requires
        (addrs.contains_key(addr) ==> !(addrs[addr].state is Loopback)),
    ensures
        redeem_issues_dial(block_addrs_map(addrs, addr), addr),
        redeem_addrs_map(block_addrs_map(addrs, addr), addr).contains_key(addr),
        redeem_addrs_map(block_addrs_map(addrs, addr), addr)[addr].state
            == (OutgoingState::<H, E>::Connecting { failures_so_far: 0 }),
{
}

/// Backoff is strictly monotone: more failures wait strictly longer, up to
/// the retry bound.
pub proof fn lemma_backoff_monotonic(cfg: OutgoingConfig, n1: u8, n2: u8)
    requires
        cfg.valid(),
        n1 < n2,
        n2 <= cfg.retry_attempts,
    ensures
        cfg.backoff_millis(n1) < cfg.backoff_millis(n2),
{
    lemma_pow2_strictly_increases(n1 as nat, n2 as nat);
    lemma_mul_strict_inequality(
        pow2(n1 as nat) as int,
        pow2(n2 as nat) as int,
        cfg.base_timeout as int,
    );
}

/// The handle `get_route` returns: present exactly when the routing table
/// binds the peer and the bound address is connected to that peer.
pub open spec fn route_lookup<H, E>(
    addrs: Map<Addr, Outgoing<H, E>>,
    routes: Map<NodeId, Addr>,
    peer_id: NodeId,
) -> Option<H> {
    if routes.contains_key(peer_id) && addrs.contains_key(routes[peer_id]) {
        match addrs[routes[peer_id]].state {
            OutgoingState::Connected { peer_id: q, handle } => if q == peer_id {
                Some(handle)
            } else {
                None
            },
            _ => None,
        }
    } else {
        None
    }
}

} // verus!
