//! Timestamps on a circular clock, and the samples read from the button.

use vstd::prelude::*;

verus! {

/// Timing parameters of the decoder.
pub struct Config {
    /// Maximum timestamp (timestamps wrap back to 0 after this value).
    pub maximum: usize,
    /// Time period after which the state may step without interaction.
    pub period: usize,
}

/// One sample of the button.
#[derive(Clone, Copy, Debug)]
pub struct Input {
    /// The current timestamp.
    pub timestamp: usize,
    /// Whether the button is being pressed.
    pub button: bool,
}

impl Config {
    /// Elapsed time from `reference` to `current` on a clock that counts
    /// `maximum + 1` values before it wraps.
    pub open spec fn wrapping_diff(self, reference: int, current: int) -> int {
        if current < reference {
            self.maximum - reference + current + 1
        } else {
            current - reference
        }
    }

    /// Returns the difference between 2 timestamps.
    pub fn diff(&self, reference: usize, current: usize) -> (r: usize)
        requires
            reference <= self.maximum,
        ensures
            r == self.wrapping_diff(reference as int, current as int),
            current <= self.maximum ==> r <= self.maximum,
    {
        if current < reference {
            self.maximum - reference + current + 1
        } else {
            current - reference
        }
    }
}

/// The elapsed time between two timestamps is never negative, and no time
/// elapses between a timestamp and itself.
pub proof fn lemma_diff_nonnegative(config: Config, reference: usize, current: usize)
    requires
        reference <= config.maximum,
    ensures
        config.wrapping_diff(reference as int, current as int) >= 0,
        config.wrapping_diff(reference as int, reference as int) == 0,
{
}

} // verus!
