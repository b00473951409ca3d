//! The renderer's source of randomness.
//!
//! Sampling (pixel jitter, lens positions, scatter directions) draws from a
//! `RandomSource`. Nothing is assumed of a draw beyond its range, so every
//! result proved of the renderer holds for every sequence of draws. The
//! thread-local generator backs ordinary rendering; a replayed sequence of
//! values gives deterministic runs for tests.

use vstd::prelude::*;

use crate::fixed::FX_ONE;

verus! {

/// A supplier of uniform fixed-point draws in `[0, 1)`.
pub trait RandomSource {
    /// The next draw: a fixed-point value at least 0 and below one unit.
    fn next_unit(&mut self) -> (r: i128)
        ensures
            0 <= r < FX_ONE,
    ;
}

/// Relies on rand::random: returns some `u16`; nothing further is assumed
/// of the value.
#[verifier::external_body]
fn random_u16() -> (r: u16) {
    rand::random::<u16>()
}

/// Draws from the process-wide thread-local generator.
pub struct ThreadRandom {}

impl ThreadRandom {
    pub fn new() -> (r: ThreadRandom) {
        ThreadRandom {}
    }
}

impl RandomSource for ThreadRandom {
    fn next_unit(&mut self) -> (r: i128) {
        let v = random_u16();
        v as i128
    }
}

/// Replays a fixed sequence of draws, cycling when it runs out; draws
/// outside `[0, 1)` and an empty sequence fall back to one half. Gives
/// tests a deterministic source.
pub struct ReplayRandom {
    pub values: Vec<i128>,
    pub index: usize,
}

/// The position the next replayed draw is read from: the cursor, wrapped
/// back to the start when the stored values have run out.
pub open spec fn replay_position_s(r: ReplayRandom) -> int {
    if r.index >= r.values@.len() {
        0
    } else {
        r.index as int
    }
}

/// The value the next replayed draw returns: the stored value at the
/// current position, or one half when it lies outside `[0, 1)`.
pub open spec fn replay_value_s(r: ReplayRandom) -> int {
    let v = r.values@[replay_position_s(r)];
    if 0 <= v < FX_ONE {
        v as int
    } else {
        FX_ONE as int / 2
    }
}

impl ReplayRandom {
    pub fn new(values: Vec<i128>) -> (r: ReplayRandom)
        ensures
            r.values == values,
            r.index == 0,
    {
        ReplayRandom { values, index: 0 }
    }

    /// The next replayed draw, exactly: an empty sequence yields one half
    /// and moves nothing; otherwise the value at the wrapped cursor is
    /// returned (clamped into `[0, 1)` by the one-half fallback) and the
    /// cursor advances past it.
    pub fn next_replay(&mut self) -> (r: i128)
        ensures
            0 <= r < FX_ONE,
            final (self).values == old(self).values,
            old(self).values@.len() == 0 ==> r == FX_ONE / 2 && final (self).index == old(
                self,
            ).index,
            old(self).values@.len() > 0 ==> r == replay_value_s(*old(self)) && final (self).index
                == replay_position_s(*old(self)) + 1,
    {
        if self.values.len() == 0 {
            return FX_ONE / 2;
        }
        if self.index >= self.values.len() {
            self.index = 0;
        }
        let v = self.values[self.index];
        self.index = self.index + 1;
        if 0 <= v && v < FX_ONE {
            v
        } else {
            FX_ONE / 2
        }
    }
}

impl RandomSource for ReplayRandom {
    fn next_unit(&mut self) -> (r: i128) {
        self.next_replay()
    }
}

} // verus!
