//! Positions on a media clock.

use vstd::prelude::*;

verus! {

/// The position that lies `samples` samples after `timestamp`; before it,
/// where `samples` is negative.
pub open spec fn shifted(timestamp: u32, samples: int) -> u32 {
    ((timestamp + samples) % 0x1_0000_0000) as u32
}

/// By how many samples `a` lies after `b`: the shorter way round the clock,
/// negative where `a` lies before `b`.
pub open spec fn distance(a: u32, b: u32) -> int {
    let ahead = (a - b) % 0x1_0000_0000;
    if ahead >= 0x8000_0000 {
        ahead - 0x1_0000_0000
    } else {
        ahead
    }
}

/// A position on the media clock of a stream: a count of samples that wraps
/// around after 32 bits.
#[derive(Debug, Clone, Copy, PartialEq, Eq, Structural)]
pub struct MediaClockTimestamp {
    pub timestamp: u32,
    pub sample_rate: usize,
}

impl MediaClockTimestamp {
    /// This position moved by a number of samples.
    pub open spec fn moved(self, samples: int) -> MediaClockTimestamp {
        MediaClockTimestamp {
            timestamp: shifted(self.timestamp, samples),
            sample_rate: self.sample_rate,
        }
    }

    pub fn new(timestamp: u32, sample_rate: usize) -> (position: Self)
        ensures
            position.timestamp == timestamp,
            position.sample_rate == sample_rate,
    {
        MediaClockTimestamp { timestamp, sample_rate }
    }

    /// The position at a time, given in nanoseconds since the clock was at 0.
    pub fn at_time(nanos: u64, sample_rate: usize) -> (position: Self)
        ensures
            position.timestamp == (nanos * sample_rate / 1_000_000_000) % 0x1_0000_0000,
            position.sample_rate == sample_rate,
    {
        proof {
            assert(0 <= nanos * sample_rate <= 0xffff_ffff_ffff_ffff * 0xffff_ffff_ffff_ffff)
                by (nonlinear_arith)
                requires
                    0 <= nanos <= 0xffff_ffff_ffff_ffff,
                    0 <= sample_rate <= 0xffff_ffff_ffff_ffff,
            ;
        }
        let samples: u128 = nanos as u128 * sample_rate as u128 / 1_000_000_000;
        MediaClockTimestamp { timestamp: (samples % 0x1_0000_0000) as u32, sample_rate }
    }

    /// The position one sample later.
    pub fn next(&self) -> (position: Self)
        ensures
            position == self.moved(1),
    {
        self.later_by(1)
    }

    /// The position one sample earlier.
    pub fn previous(&self) -> (position: Self)
        ensures
            position == self.moved(-1),
    {
        self.earlier_by(1)
    }

    /// The position that many samples later.
    pub fn later_by(&self, samples: u32) -> (position: Self)
        ensures
            position == self.moved(samples as int),
    {
        MediaClockTimestamp {
            timestamp: self.timestamp.wrapping_add(samples),
            sample_rate: self.sample_rate,
        }
    }

    /// The position that many frames later, for counts of any size.
    pub fn later_by_frames(&self, frames: usize) -> (position: Self)
        ensures
            position == self.moved(frames as int),
    {
        let samples: u32 = (frames as u64 % 0x1_0000_0000) as u32;
        proof {
            lemma_shift_by_remainder(self.timestamp, frames as int);
        }
        self.later_by(samples)
    }

    /// The position that many samples earlier.
    pub fn earlier_by(&self, samples: u32) -> (position: Self)
        ensures
            position == self.moved(-samples),
    {
        MediaClockTimestamp {
            timestamp: self.timestamp.wrapping_sub(samples),
            sample_rate: self.sample_rate,
        }
    }

    /// By how many samples this position lies after the other one.
    pub fn distance_from(&self, other: &MediaClockTimestamp) -> (samples: i64)
        ensures
            samples == distance(self.timestamp, other.timestamp),
            -0x8000_0000 <= samples < 0x8000_0000,
    {
        let ahead: i64 = self.timestamp.wrapping_sub(other.timestamp) as i64;
        if ahead >= 0x8000_0000 {
            ahead - 0x1_0000_0000
        } else {
            ahead
        }
    }
}

proof fn lemma_shift_by_remainder(timestamp: u32, samples: int)
    ensures
        shifted(timestamp, samples % 0x1_0000_0000) == shifted(timestamp, samples),
{
    vstd::arithmetic::div_mod::lemma_add_mod_noop_right(
        timestamp as int,
        samples,
        0x1_0000_0000,
    );
}

/// Moving a position twice is moving it by the sum.
pub proof fn lemma_moves_add_up(position: MediaClockTimestamp, a: int, b: int)
    ensures
        position.moved(a).moved(b) == position.moved(a + b),
{
    let t = position.timestamp as int;
    vstd::arithmetic::div_mod::lemma_add_mod_noop(t + a, b, 0x1_0000_0000);
    vstd::arithmetic::div_mod::lemma_add_mod_noop((t + a) % 0x1_0000_0000, b, 0x1_0000_0000);
}

/// A position that was moved by less than half the period lies at exactly
/// that distance, also where the clock wrapped around in between.
pub proof fn lemma_distance_of_move(position: MediaClockTimestamp, samples: int)
    requires
        -0x8000_0000 <= samples < 0x8000_0000,
    ensures
        distance(position.moved(samples).timestamp, position.timestamp) == samples,
{
}

/// Which of two positions lies ahead does not depend on the side from which
/// one asks, unless they lie exactly half a period apart.
pub proof fn lemma_distance_antisymmetric(a: u32, b: u32)
    requires
        distance(a, b) != -0x8000_0000,
    ensures
        distance(b, a) == -distance(a, b),
{
}

/// A position that is moved is the one that the sum has after 32 bits: it
/// differs from the sum by a multiple of the period. The sample rate stays.
pub proof fn lemma_positions_wrap(position: MediaClockTimestamp, samples: int)
    ensures
        (position.moved(samples).timestamp - (position.timestamp + samples)) % 0x1_0000_0000 == 0,
        position.moved(samples).sample_rate == position.sample_rate,
        position.moved(0) == position,
        position.moved(0x1_0000_0000) == position,
{
}

/// The distance is the number of samples, of less than half a period, by which
/// the second position has to be moved to get to the first one.
pub proof fn lemma_distance_leads_there(a: MediaClockTimestamp, b: MediaClockTimestamp)
    ensures
        -0x8000_0000 <= distance(a.timestamp, b.timestamp) < 0x8000_0000,
        (a.timestamp - b.timestamp - distance(a.timestamp, b.timestamp)) % 0x1_0000_0000 == 0,
        b.moved(distance(a.timestamp, b.timestamp)).timestamp == a.timestamp,
        distance(a.timestamp, b.timestamp) == 0 <==> a.timestamp == b.timestamp,
{
}

} // verus!
