//! Key handling: one event per press, and the long press of the boot key
//! that asks for a factory reset.

use vstd::prelude::*;
use crate::config::BUTTON_HOLD_DURATION_SECS;

verus! {

/// Turns a stream of polled key states into press events: an event on
/// each transition from released to pressed, none while the key is held.
pub struct PressDetector {
    was_pressed: bool,
}

impl PressDetector {
    /// The key state seen last.
    pub closed spec fn held(&self) -> bool {
        self.was_pressed
    }

    /// A detector that has seen the key released.
    pub fn new() -> (d: Self)
        ensures
            !d.held(),
    {
        PressDetector { was_pressed: false }
    }

    /// Take one poll of the key; `true` when it reports a new press.
    pub fn update(&mut self, pressed: bool) -> (event: bool)
        ensures
            event == (pressed && !old(self).held()),
            final(self).held() == pressed,
    {
        if pressed && !self.was_pressed {
            self.was_pressed = true;
            true
        } else {
            if !pressed {
                self.was_pressed = false;
            }
            false
        }
    }
}

/// Number of press events a detector that starts in state `held` reports
/// over the polls `polls`.
pub open spec fn press_events(held: bool, polls: Seq<bool>) -> nat
    decreases polls.len(),
{
    if polls.len() == 0 {
        0
    } else {
        (if polls[0] && !held { 1nat } else { 0nat }) + press_events(polls[0], polls.drop_first())
    }
}

/// A key held down through any number of polls gives no further event.
pub proof fn lemma_held_key_is_quiet(n: nat)
    ensures
        press_events(true, Seq::new(n, |i: int| true)) == 0,
    decreases n,
{
    if n > 0 {
        assert(Seq::new(n, |i: int| true).drop_first() =~= Seq::new((n - 1) as nat, |i: int| true));
        lemma_held_key_is_quiet((n - 1) as nat);
    }
}

/// How long the boot key must be held for a factory reset, in milliseconds.
pub const HOLD_DURATION_MS: u64 = 3000;

/// Whether the boot key, held for `held_ms` milliseconds, asks for a
/// factory reset.
pub fn factory_reset_due(held_ms: u64) -> (due: bool)
    ensures
        due == (held_ms >= BUTTON_HOLD_DURATION_SECS * 1000),
{
    held_ms >= HOLD_DURATION_MS
}

} // verus!
