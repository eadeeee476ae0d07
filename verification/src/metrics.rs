//! Counters of what the server has done.

use vstd::prelude::*;

verus! {

/// One counter for each kind of event. They wrap around.
#[derive(Debug, Clone, Copy, PartialEq, Eq, Structural)]
pub struct Counters {
    pub auth_failures: u64,
    pub focus_switches: u64,
    pub sessions_opened: u64,
    pub clipboard_text_bytes: u64,
    pub clipboard_image_bytes: u64,
}

impl Counters {
    /// Nothing has happened yet.
    pub open spec fn zero() -> Counters {
        Counters {
            auth_failures: 0,
            focus_switches: 0,
            sessions_opened: 0,
            clipboard_text_bytes: 0,
            clipboard_image_bytes: 0,
        }
    }

    pub fn new() -> (r: Self)
        ensures
            r == Counters::zero(),
    {
        Counters {
            auth_failures: 0,
            focus_switches: 0,
            sessions_opened: 0,
            clipboard_text_bytes: 0,
            clipboard_image_bytes: 0,
        }
    }
}

/// A counter that stands at `c`, after `by` more.
pub open spec fn counted_on(c: u64, by: nat) -> u64 {
    ((c + by) % 0x1_0000_0000_0000_0000) as u64
}

/// Counts `by` more.
pub fn inc(c: &mut u64, by: u64)
    ensures
        *final(c) == counted_on(*old(c), by as nat),
{
    *c = c.wrapping_add(by);
}

/// The counters at one moment.
#[derive(Debug, Clone, Copy, PartialEq, Eq, Structural)]
pub struct Snapshot {
    pub auth_failures: u64,
    pub focus_switches: u64,
    pub sessions_opened: u64,
    pub clipboard_text_bytes: u64,
    pub clipboard_image_bytes: u64,
}

/// What the counters say.
pub open spec fn snapshot_of(c: Counters) -> Snapshot {
    Snapshot {
        auth_failures: c.auth_failures,
        focus_switches: c.focus_switches,
        sessions_opened: c.sessions_opened,
        clipboard_text_bytes: c.clipboard_text_bytes,
        clipboard_image_bytes: c.clipboard_image_bytes,
    }
}

pub fn snapshot(c: &Counters) -> (r: Snapshot)
    ensures
        r == snapshot_of(*c),
{
    Snapshot {
        auth_failures: c.auth_failures,
        focus_switches: c.focus_switches,
        sessions_opened: c.sessions_opened,
        clipboard_text_bytes: c.clipboard_text_bytes,
        clipboard_image_bytes: c.clipboard_image_bytes,
    }
}

/// Counting adds up: nothing is lost while a counter has room, counting twice is counting the sum,
/// and counting nothing changes nothing.
pub proof fn counting_adds_up(c: u64, a: nat, b: nat)
    ensures
        c + a <= u64::MAX ==> counted_on(c, a) == c + a,
        counted_on(counted_on(c, a), b) == counted_on(c, a + b),
        counted_on(c, 0) == c,
{
    let m = 0x1_0000_0000_0000_0000int;
    vstd::arithmetic::div_mod::lemma_add_mod_noop(c + a, b as int, m);
    if b < m {
        vstd::arithmetic::div_mod::lemma_small_mod(b, m as nat);
    }
    assert(((c + a) % m + b) % m == (c + a + b) % m) by {
        vstd::arithmetic::div_mod::lemma_add_mod_noop(c + a, b as int, m);
        vstd::arithmetic::div_mod::lemma_add_mod_noop((c + a) % m, b as int, m);
        vstd::arithmetic::div_mod::lemma_mod_twice(c + a, m);
    }
}

/// What is told of the counters is where each of them stands.
pub proof fn counters_are_told_as_they_stand(c: Counters)
    ensures
        snapshot_of(c).auth_failures == c.auth_failures,
        snapshot_of(c).focus_switches == c.focus_switches,
        snapshot_of(c).sessions_opened == c.sessions_opened,
        snapshot_of(c).clipboard_text_bytes == c.clipboard_text_bytes,
        snapshot_of(c).clipboard_image_bytes == c.clipboard_image_bytes,
{
}

} // verus!
