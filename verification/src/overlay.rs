//! The banner that is shown for a moment when the focus moves.

use vstd::prelude::*;

verus! {

/// Milliseconds that the banner takes to appear, and to disappear.
pub const FADE_MS: u64 = 150;

/// What the banner does.
#[derive(Debug, Clone, Copy, PartialEq, Eq, Structural)]
pub enum Banner {
    /// It appears, since so many milliseconds.
    FadeIn(u64),
    /// It is there.
    Hold,
    /// It disappears, since so many milliseconds.
    FadeOut(u64),
    /// It is gone.
    Gone,
}

/// What the banner does so many milliseconds after its start.
pub open spec fn banner_at(elapsed: u64, hold: u64) -> Banner {
    if elapsed >= FADE_MS + hold + FADE_MS {
        Banner::Gone
    } else if elapsed < FADE_MS {
        Banner::FadeIn(elapsed)
    } else if elapsed < FADE_MS + hold {
        Banner::Hold
    } else {
        Banner::FadeOut((elapsed - FADE_MS - hold) as u64)
    }
}

pub fn banner(elapsed: u64, hold: u64) -> (r: Banner)
    requires
        FADE_MS + hold + FADE_MS <= u64::MAX,
    ensures
        r == banner_at(elapsed, hold),
{
    if elapsed >= FADE_MS + hold + FADE_MS {
        Banner::Gone
    } else if elapsed < FADE_MS {
        Banner::FadeIn(elapsed)
    } else if elapsed < FADE_MS + hold {
        Banner::Hold
    } else {
        Banner::FadeOut(elapsed - FADE_MS - hold)
    }
}

/// The banner never takes longer to appear or to disappear than it should, and once it is gone it
/// stays gone.
pub proof fn banner_goes_for_good(elapsed: u64, later: u64, hold: u64)
    requires
        elapsed <= later,
    ensures
        banner_at(elapsed, hold) matches Banner::FadeIn(t) ==> t < FADE_MS,
        banner_at(elapsed, hold) matches Banner::FadeOut(t) ==> t < FADE_MS,
        banner_at(elapsed, hold) is Gone ==> banner_at(later, hold) is Gone,
{
}

/// The banner appears for 150 milliseconds, holds as long as it was asked to, and disappears for 150
/// more.
pub proof fn banner_keeps_its_times(elapsed: u64, hold: u64)
    ensures
        banner_at(elapsed, hold) is FadeIn <==> elapsed < 150,
        banner_at(elapsed, hold) is Hold <==> 150 <= elapsed < 150 + hold,
        banner_at(elapsed, hold) is FadeOut <==> 150 + hold <= elapsed < 150 + hold + 150,
        banner_at(elapsed, hold) is Gone <==> 150 + hold + 150 <= elapsed,
        banner_at(elapsed, hold) matches Banner::FadeIn(t) ==> t == elapsed,
        banner_at(elapsed, hold) matches Banner::FadeOut(t) ==> 150 + hold + t == elapsed,
{
}

} // verus!
