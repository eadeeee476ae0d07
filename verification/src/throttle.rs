//! Holding off peers that fail to authenticate.
//!
//! A short passphrase could be guessed by trying. So failures are counted for each address, and
//! after a few in a row the address is blocked for a time that doubles with each further failure,
//! up to a bound. A success, or a quiet time, starts the count anew.
//!
//! Times are in nanoseconds of a clock that never goes back.

use crate::metrics::{counted_on, inc, Counters};
use std::collections::HashMap;
use vstd::arithmetic::power2::{lemma2_to64, lemma_pow2_strictly_increases, lemma_pow2_unfold, pow2};
use vstd::prelude::*;

verus! {

/// How many failures in a row block a peer.
pub const MAX_FAILURES: u32 = 3;

/// The first time for which a peer is blocked.
pub const BACKOFF_BASE: u64 = 5_000_000_000;

/// The longest time for which a peer is blocked.
pub const BACKOFF_MAX: u64 = 300_000_000_000;

/// The quiet time after which failures are forgotten.
pub const FAILURE_DECAY: u64 = 60_000_000_000;

/// The address of a peer.
#[derive(Debug, Clone, Copy, PartialEq, Eq, Structural)]
pub enum PeerAddr {
    V4(u32),
    V6(u128),
}

/// What is remembered of a peer that failed.
#[derive(Debug, Clone, Copy, PartialEq, Eq, Structural)]
pub struct PeerState {
    pub failures: u32,
    pub last_failure: Option<u64>,
    pub blocked_until: Option<u64>,
}

impl PeerState {
    /// A peer that has not failed.
    pub open spec fn fresh() -> PeerState {
        PeerState { failures: 0, last_failure: None, blocked_until: None }
    }

    /// What is left of the past at `now`: nothing, where the last failure was long ago.
    pub open spec fn decayed(self, now: u64) -> PeerState {
        match self.last_failure {
            Some(last) => if now - last > FAILURE_DECAY {
                PeerState { failures: 0, last_failure: Some(last), blocked_until: None }
            } else {
                self
            },
            None => self,
        }
    }

    /// After a failure at `now`.
    pub open spec fn failed(self, now: u64) -> PeerState {
        let s = self.decayed(now);
        let failures = (s.failures + 1) as u32;
        PeerState {
            failures,
            last_failure: Some(now),
            blocked_until: if failures >= MAX_FAILURES {
                Some((now + backoff_after(failures as nat)) as u64)
            } else {
                s.blocked_until
            },
        }
    }
}

/// How long a peer is still blocked at `now`, if it is.
pub open spec fn blocked_for(s: PeerState, now: u64) -> Option<u64> {
    match s.blocked_until {
        Some(until) => if now < until {
            Some((until - now) as u64)
        } else {
            None
        },
        None => None,
    }
}

/// The time for which a peer is blocked after so many failures: it doubles with each, up to a
/// bound.
pub open spec fn backoff_after(failures: nat) -> nat {
    let t = BACKOFF_BASE as nat * pow2((failures - MAX_FAILURES) as nat);
    if t < BACKOFF_MAX {
        t
    } else {
        BACKOFF_MAX as nat
    }
}

/// The time for which a peer is blocked after so many failures.
fn backoff(failures: u32) -> (r: u64)
    requires
        failures >= MAX_FAILURES,
    ensures
        r == backoff_after(failures as nat),
{
    let extra: u32 = failures - MAX_FAILURES;
    let mut t: u64 = BACKOFF_BASE;
    let mut i: u32 = 0;
    proof {
        lemma2_to64();
    }
    while i < extra && t < BACKOFF_MAX
        invariant
            i <= extra,
            t == BACKOFF_BASE * pow2(i as nat),
            t < 2 * BACKOFF_MAX,
        decreases extra - i,
    {
        proof {
            lemma_pow2_unfold((i + 1) as nat);
            assert(BACKOFF_BASE * (2 * pow2(i as nat)) == 2 * (BACKOFF_BASE * pow2(i as nat)))
                by (nonlinear_arith);
        }
        t = t * 2;
        i = i + 1;
    }
    if t < BACKOFF_MAX {
        t
    } else {
        proof {
            if i < extra {
                lemma_pow2_strictly_increases(i as nat, extra as nat);
                assert(BACKOFF_BASE * pow2(i as nat) <= BACKOFF_BASE * pow2(extra as nat))
                    by (nonlinear_arith)
                    requires
                        pow2(i as nat) <= pow2(extra as nat),
                ;
            }
        }
        BACKOFF_MAX
    }
}

/// The peers that have failed.
#[derive(Debug)]
pub struct AuthThrottle {
    v4: HashMap<u32, PeerState>,
    v6: HashMap<u128, PeerState>,
}

impl AuthThrottle {
    /// What is remembered of a peer.
    pub closed spec fn peer(self, addr: PeerAddr) -> Option<PeerState> {
        match addr {
            PeerAddr::V4(a) => if self.v4@.dom().contains(a) {
                Some(self.v4@[a])
            } else {
                None
            },
            PeerAddr::V6(a) => if self.v6@.dom().contains(a) {
                Some(self.v6@[a])
            } else {
                None
            },
        }
    }

    /// What is remembered of a peer, who has not failed if there is nothing.
    pub open spec fn record(self, addr: PeerAddr) -> PeerState {
        match self.peer(addr) {
            Some(s) => s,
            None => PeerState::fresh(),
        }
    }

    /// Nobody has failed.
    pub fn new() -> (r: Self)
        ensures
            forall|a: PeerAddr| (#[trigger] r.peer(a)) is None,
    {
        AuthThrottle { v4: HashMap::new(), v6: HashMap::new() }
    }

    fn get(&self, addr: PeerAddr) -> (r: Option<PeerState>)
        ensures
            r == self.peer(addr),
    {
        broadcast use vstd::std_specs::hash::group_hash_axioms;

        match addr {
            PeerAddr::V4(a) => match self.v4.get(&a) {
                Some(s) => Some(*s),
                None => None,
            },
            PeerAddr::V6(a) => match self.v6.get(&a) {
                Some(s) => Some(*s),
                None => None,
            },
        }
    }

    /// How often a peer has failed in a row.
    pub fn failures(&self, addr: PeerAddr) -> (r: u32)
        ensures
            r == self.record(addr).failures,
    {
        match self.get(addr) {
            Some(s) => s.failures,
            None => 0,
        }
    }

    /// How long a peer is still blocked, if it is.
    pub fn blocked(&self, addr: PeerAddr, now: u64) -> (r: Option<u64>)
        ensures
            r == blocked_for(self.record(addr), now),
    {
        match self.get(addr) {
            Some(s) => match s.blocked_until {
                Some(until) => if now < until {
                    Some(until - now)
                } else {
                    None
                },
                None => None,
            },
            None => None,
        }
    }

    /// A peer failed to authenticate.
    pub fn record_failure(&mut self, addr: PeerAddr, now: u64, counters: &mut Counters)
        requires
            old(self).record(addr).decayed(now).failures < u32::MAX,
            now + BACKOFF_MAX <= u64::MAX,
        ensures
            forall|a: PeerAddr| #[trigger]
                final(self).peer(a) == if a == addr {
                    Some(old(self).record(addr).failed(now))
                } else {
                    old(self).peer(a)
                },
            *final(counters) == (Counters {
                auth_failures: counted_on(old(counters).auth_failures, 1),
                ..*old(counters)
            }),
    {
        broadcast use vstd::std_specs::hash::group_hash_axioms;

        inc(&mut counters.auth_failures, 1);
        let mut s = match self.get(addr) {
            Some(s) => s,
            None => PeerState { failures: 0, last_failure: None, blocked_until: None },
        };
        if let Some(last) = s.last_failure {
            if now > last && now - last > FAILURE_DECAY {
                s.failures = 0;
                s.blocked_until = None;
            }
        }
        s.failures = s.failures + 1;
        s.last_failure = Some(now);
        if s.failures >= MAX_FAILURES {
            let wait = backoff(s.failures);
            s.blocked_until = Some(now + wait);
        }
        match addr {
            PeerAddr::V4(a) => {
                self.v4.insert(a, s);
            },
            PeerAddr::V6(a) => {
                self.v6.insert(a, s);
            },
        }
    }

    /// A peer authenticated: its failures are forgotten.
    pub fn record_success(&mut self, addr: PeerAddr)
        ensures
            forall|a: PeerAddr| #[trigger]
                final(self).peer(a) == if a == addr {
                    None
                } else {
                    old(self).peer(a)
                },
    {
        broadcast use vstd::std_specs::hash::group_hash_axioms;

        match addr {
            PeerAddr::V4(a) => {
                let _ = self.v4.remove(&a);
            },
            PeerAddr::V6(a) => {
                let _ = self.v6.remove(&a);
            },
        }
    }
}

/// What is recorded of a peer.
pub enum AuthEvent {
    /// It failed at this time.
    Failure(u64),
    Success,
}

/// What is remembered of a peer after some events, of it and of others, in order.
pub open spec fn remembered(events: Seq<(PeerAddr, AuthEvent)>, a: PeerAddr) -> Option<PeerState>
    decreases events.len(),
{
    if events.len() == 0 {
        None
    } else {
        let before = remembered(events.drop_last(), a);
        if events.last().0 != a {
            before
        } else {
            match events.last().1 {
                AuthEvent::Failure(now) => Some(
                    (match before {
                        Some(s) => s,
                        None => PeerState::fresh(),
                    }).failed(now),
                ),
                AuthEvent::Success => None,
            }
        }
    }
}

/// The times of the failures of a peer in a row: those since its last success, and since the last
/// quiet time between two of its failures.
pub open spec fn row_of(events: Seq<(PeerAddr, AuthEvent)>, a: PeerAddr) -> Seq<u64>
    decreases events.len(),
{
    if events.len() == 0 {
        Seq::empty()
    } else {
        let before = row_of(events.drop_last(), a);
        if events.last().0 != a {
            before
        } else {
            match events.last().1 {
                AuthEvent::Failure(now) => if before.len() > 0 && now - before.last()
                    > FAILURE_DECAY {
                    seq![now]
                } else {
                    before.push(now)
                },
                AuthEvent::Success => Seq::empty(),
            }
        }
    }
}

/// The clock is not so near its end that a time of blocking would go beyond it.
pub open spec fn clock_fits(events: Seq<(PeerAddr, AuthEvent)>) -> bool {
    forall|i: int|
        0 <= i < events.len() ==> ((#[trigger] events[i]).1 matches AuthEvent::Failure(now) ==> now
            + BACKOFF_MAX <= u64::MAX)
}

/// Whatever was recorded, of this peer and of others: a peer is blocked exactly if it has failed
/// often enough in a row, and then from its last failure on for the time that belongs to the number
/// of its failures. What others do has no part in it.
pub proof fn blocks_after_failures_in_a_row(
    events: Seq<(PeerAddr, AuthEvent)>,
    a: PeerAddr,
    u: u64,
)
    requires
        clock_fits(events),
        events.len() < u32::MAX,
    ensures
        ({
            let row = row_of(events, a);
            let s = match remembered(events, a) {
                Some(s) => s,
                None => PeerState::fresh(),
            };
            let until = row.last() + backoff_after(row.len());
            &&& row.len() <= events.len()
            &&& remembered(events, a) is Some <==> row.len() > 0
            &&& s.failures == row.len()
            &&& row.len() > 0 ==> s.last_failure == Some(row.last())
            &&& row.len() < MAX_FAILURES ==> s.blocked_until is None && blocked_for(s, u) is None
            &&& row.len() >= MAX_FAILURES ==> s.blocked_until == Some(until as u64) && until
                <= u64::MAX && blocked_for(s, u) == if u < until {
                Some((until - u) as u64)
            } else {
                None
            }
        }),
    decreases events.len(),
{
    if events.len() > 0 {
        let before = events.drop_last();
        assert forall|i: int| 0 <= i < before.len() implies ((#[trigger] before[i]).1 matches
            AuthEvent::Failure(now) ==> now + BACKOFF_MAX <= u64::MAX) by {
            assert(before[i] == events[i]);
        }
        blocks_after_failures_in_a_row(before, a, u);
        assert(events[events.len() - 1] == events.last());
    }
}

/// With each failure the time grows, until it has reached its bound, which it never exceeds.
pub proof fn backoff_grows(failures: nat)
    requires
        failures >= MAX_FAILURES,
    ensures
        BACKOFF_BASE <= backoff_after(failures) <= BACKOFF_MAX,
        backoff_after(failures) < BACKOFF_MAX ==> backoff_after(failures) < backoff_after(
            failures + 1,
        ),
        backoff_after(failures) == BACKOFF_MAX ==> backoff_after(failures + 1) == BACKOFF_MAX,
        backoff_after(MAX_FAILURES as nat) == BACKOFF_BASE,
{
    let e = (failures - MAX_FAILURES) as nat;
    lemma2_to64();
    lemma_pow2_unfold(e + 1);
    vstd::arithmetic::power2::lemma_pow2_pos(e);
    assert(BACKOFF_BASE * (2 * pow2(e)) == 2 * (BACKOFF_BASE * pow2(e))) by (nonlinear_arith);
    assert(BACKOFF_BASE * pow2(e) >= BACKOFF_BASE) by (nonlinear_arith)
        requires
            pow2(e) >= 1,
    ;
}

/// A failure after a quiet time counts as the first, and does not block.
pub proof fn quiet_time_resets(s: PeerState, now: u64)
    requires
        s.last_failure is Some,
        now - s.last_failure->Some_0 > FAILURE_DECAY,
    ensures
        s.failed(now).failures == 1,
        s.failed(now).blocked_until is None,
{
}

/// With each failure the time for which a peer is blocked doubles, up to its bound: from five
/// seconds after the third failure to five minutes.
pub proof fn backoff_doubles(failures: nat)
    requires
        failures >= 3,
    ensures
        backoff_after(3) == 5_000_000_000,
        backoff_after(failures + 1) == if 2 * backoff_after(failures) < 300_000_000_000 {
            2 * backoff_after(failures)
        } else {
            300_000_000_000nat
        },
{
    backoff_grows(failures);
    backoff_grows(failures + 1);
    let e = (failures - MAX_FAILURES) as nat;
    lemma_pow2_unfold(e + 1);
    assert(BACKOFF_BASE * (2 * pow2(e)) == 2 * (BACKOFF_BASE * pow2(e))) by (nonlinear_arith);
}

/// Two failures never block a peer, and neither do any number of them that are each more than a
/// minute apart.
pub proof fn rare_failures_do_not_block(
    events: Seq<(PeerAddr, AuthEvent)>,
    a: PeerAddr,
    u: u64,
)
    requires
        clock_fits(events),
        events.len() < u32::MAX,
        row_of(events, a).len() < 3,
    ensures
        remembered(events, a) matches Some(s) ==> blocked_for(s, u) is None,
        MAX_FAILURES == 3,
        FAILURE_DECAY == 60_000_000_000,
{
    blocks_after_failures_in_a_row(events, a, u);
}

/// The time that is left of a block is what brings the clock to its end, and there is none once it
/// has been reached.
pub proof fn blocks_end_when_they_should(s: PeerState, now: u64)
    ensures
        blocked_for(s, now) matches Some(t) ==> t > 0 && Some((now + t) as u64) == s.blocked_until
            && now + t <= u64::MAX,
        blocked_for(s, now) is None ==> (s.blocked_until matches Some(until) ==> until <= now),
{
}

/// What is held against a peer is what is remembered of it, and nothing where nothing is: such a peer
/// has not failed and is not blocked.
pub proof fn peers_start_clean(t: AuthThrottle, addr: PeerAddr, now: u64)
    ensures
        t.peer(addr) is Some ==> t.record(addr) == t.peer(addr)->Some_0,
        t.peer(addr) is None ==> t.record(addr).failures == 0 && blocked_for(t.record(addr), now)
            is None,
{
}

} // verus!
