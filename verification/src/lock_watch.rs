//! Noticing that the local screen gets locked.
//!
//! The state is polled. A change of it is reported; the state at the start is reported only if it
//! is locked.

use crate::text::{same_text, text_from_utf8, trim, trimmed};
use vstd::prelude::*;
use vstd::utf8::{decode_utf8, valid_utf8};

verus! {

#[derive(Debug, Clone, Copy, PartialEq, Eq, Structural)]
pub enum LockState {
    Locked,
    Unlocked,
}

/// Seconds between two polls.
pub const POLL_INTERVAL: u64 = 2;

/// What the last successful poll said, if there was one.
#[derive(Debug, Clone, Copy, PartialEq, Eq, Structural)]
pub struct LockWatch {
    pub last: Option<bool>,
}

/// What is reported when a poll says `now` after the last one said `last`. A poll that failed says
/// nothing.
pub open spec fn lock_report(last: Option<bool>, now: Option<bool>) -> Option<LockState> {
    match now {
        None => None,
        Some(true) => if last == Some(true) {
            None
        } else {
            Some(LockState::Locked)
        },
        Some(false) => if last == Some(true) {
            Some(LockState::Unlocked)
        } else {
            None
        },
    }
}

impl LockWatch {
    pub fn new() -> (r: Self)
        ensures
            r.last is None,
    {
        LockWatch { last: None }
    }

    /// Takes the result of a poll.
    pub fn observe(&mut self, now: Option<bool>) -> (r: Option<LockState>)
        ensures
            r == lock_report(old(self).last, now),
            final(self).last == if now is Some {
                now
            } else {
                old(self).last
            },
    {
        let was_locked = match self.last {
            Some(l) => l,
            None => false,
        };
        match now {
            None => None,
            Some(locked) => {
                self.last = now;
                if locked == was_locked {
                    None
                } else if locked {
                    Some(LockState::Locked)
                } else {
                    Some(LockState::Unlocked)
                }
            },
        }
    }
}

/// Reports alternate: a screen that is reported as locked is not reported so again before it was
/// reported as unlocked, and it is never reported as unlocked first.
pub proof fn reports_alternate(last: Option<bool>, now: Option<bool>)
    ensures
        lock_report(last, now) == Some(LockState::Locked) ==> last != Some(true) && now == Some(true),
        lock_report(last, now) == Some(LockState::Unlocked) ==> last == Some(true) && now == Some(
            false,
        ),
        lock_report(None, now) != Some(LockState::Unlocked),
{
}

/// What the answer of `loginctl show-session self -p LockedHint --value` means: nothing if the
/// command failed or its answer is no text, otherwise whether it says yes.
pub fn locked_hint(success: bool, stdout: &[u8]) -> (r: Option<bool>)
    ensures
        r == if success && valid_utf8(stdout@) {
            Some(trimmed(decode_utf8(stdout@)) == "yes"@)
        } else {
            None
        },
{
    if !success {
        return None;
    }
    match text_from_utf8(stdout) {
        Ok(s) => Some(same_text(trim(s.as_str()), "yes")),
        Err(_) => None,
    }
}

/// Every change is reported, as what it is, and nothing else but a screen that is locked at first.
pub proof fn every_change_is_reported(was: bool, now: bool)
    ensures
        lock_report(Some(was), Some(now)) is Some <==> was != now,
        was != now ==> lock_report(Some(was), Some(now)) == Some(
            if now {
                LockState::Locked
            } else {
                LockState::Unlocked
            },
        ),
        lock_report(None, Some(now)) == if now {
            Some(LockState::Locked)
        } else {
            None
        },
        lock_report(Some(was), None) is None,
        lock_report(None, None) is None,
{
}

/// The screen is taken to be locked if and only if the command went well and said yes, and nothing
/// is taken from a command that failed or said something that is no text.
pub proof fn only_yes_means_locked(success: bool, stdout: &[u8], r: Option<bool>)
    requires
        call_ensures(locked_hint, (success, stdout), r),
    ensures
        r is None <==> !success || !valid_utf8(stdout@),
        r == Some(true) <==> success && valid_utf8(stdout@) && trimmed(decode_utf8(stdout@))
            == "yes"@,
{
}

} // verus!
