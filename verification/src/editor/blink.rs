//! The blinking cursor. Times are in milliseconds of a clock that the application
//! reads.

use vstd::prelude::*;

verus! {

/// The interval of the cursor's blinking where none is configured.
pub const BLINK_INTERVAL: u64 = 530;

/// How much time passed from `then` to `now`; none, if the clock went back.
pub open spec fn elapsed(then: u64, now: u64) -> int {
    if now >= then {
        now - then
    } else {
        0
    }
}

/// True iff at least `span` passed from `then` to `now`.
pub fn has_elapsed(then: u64, now: u64, span: u64) -> (r: bool)
    ensures
        r == (elapsed(then, now) >= span),
{
    if now >= then {
        now - then >= span
    } else {
        span == 0
    }
}

/// The phase of a blinking cursor. Movement makes the cursor visible, so that it
/// is seen right after a key press.
#[derive(Debug, Clone, Copy, PartialEq, Eq, Structural)]
pub struct CursorBlink {
    pub blinking: bool,
    pub visible: bool,
    pub interval: u64,
    pub last_toggle: u64,
}

impl CursorBlink {
    /// The cursor visible, with the phase begun at `now`.
    pub open spec fn restarted(self, now: u64) -> CursorBlink {
        CursorBlink { visible: true, last_toggle: now, ..self }
    }

    /// A cursor that blinks, or not, at the given interval. An interval of 0 is
    /// taken for the default, so that it cannot make the screen redraw without
    /// end.
    pub fn from_config(blinking: bool, interval_ms: u64, now: u64) -> (r: Self)
        ensures
            r.blinking == blinking,
            r.visible,
            r.interval == if interval_ms == 0 {
                BLINK_INTERVAL
            } else {
                interval_ms
            },
            r.last_toggle == now,
    {
        let interval: u64 = if interval_ms == 0 {
            BLINK_INTERVAL
        } else {
            interval_ms
        };
        CursorBlink { blinking, visible: true, interval, last_toggle: now }
    }

    /// Takes new settings over, and makes the cursor visible. An interval of 0
    /// leaves the interval as it is.
    pub fn apply_config(&mut self, blinking: bool, interval_ms: u64, now: u64)
        ensures
            final(self).blinking == blinking,
            final(self).visible,
            final(self).interval == if interval_ms == 0 {
                old(self).interval
            } else {
                interval_ms
            },
            final(self).last_toggle == now,
    {
        self.blinking = blinking;
        if interval_ms != 0 {
            self.interval = interval_ms;
        }
        self.reset(now);
    }

    /// True iff the cursor is set to blink.
    pub fn is_blinking(&self) -> (r: bool)
        ensures
            r == self.blinking,
    {
        self.blinking
    }

    /// True iff the cursor is to be painted.
    pub fn is_visible(&self) -> (r: bool)
        ensures
            r == (!self.blinking || self.visible),
    {
        !self.blinking || self.visible
    }

    /// Makes the cursor visible and begins the phase anew.
    pub fn reset(&mut self, now: u64)
        ensures
            *final(self) == old(self).restarted(now),
    {
        self.visible = true;
        self.last_toggle = now;
    }

    /// Lets time pass: true iff the cursor appeared or vanished.
    pub fn tick(&mut self, now: u64) -> (r: bool)
        ensures
            r == (old(self).blinking && elapsed(old(self).last_toggle, now) >= old(self).interval),
            r ==> final(self).visible != old(self).visible && final(self).last_toggle == now
                && final(self).blinking == old(self).blinking && final(self).interval == old(
                self,
            ).interval,
            !r ==> *final(self) == *old(self),
    {
        if !self.blinking {
            return false;
        }
        if has_elapsed(self.last_toggle, now, self.interval) {
            self.visible = !self.visible;
            self.last_toggle = now;
            true
        } else {
            false
        }
    }

    /// When the cursor appears or vanishes next; `None` if it does not blink.
    pub fn next_toggle(&self) -> (r: Option<u64>)
        requires
            self.blinking ==> self.last_toggle + self.interval <= u64::MAX,
        ensures
            r == if self.blinking {
                Some((self.last_toggle + self.interval) as u64)
            } else {
                None
            },
    {
        if self.blinking {
            Some(self.last_toggle + self.interval)
        } else {
            None
        }
    }
}

/// A cursor that blinks at the default interval, visible, since time 0.
pub open spec fn first_blink() -> CursorBlink {
    CursorBlink { blinking: true, visible: true, interval: BLINK_INTERVAL, last_toggle: 0 }
}

impl Default for CursorBlink {
    fn default() -> (r: Self)
        ensures
            r == first_blink(),
    {
        CursorBlink { blinking: true, visible: true, interval: BLINK_INTERVAL, last_toggle: 0 }
    }
}

} // verus!
