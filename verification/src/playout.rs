//! Playing out: when samples go to an output port, and how the clock of the
//! audio system is kept close to the media clock.

use crate::audio_buffer::AudioBuffer;
use crate::format::{SampleFormat, SampleReader};
use crate::media_clock::{distance, lemma_moves_add_up, MediaClockTimestamp};
use crate::text::{concat, decimal, lemma_decimal_value, numbered};
use vstd::prelude::*;

verus! {

/// The name under which the audio system knows the virtual sound card.
pub const CLIENT_NAME: &'static str = "AES67 VirtualSoundCard";

/// A sample and the time at which it is due.
#[derive(Debug, Clone, Copy)]
pub struct RtpSample<S>(pub MediaClockTimestamp, pub S);

/// What the audio system reports of its outputs.
#[derive(Debug, Clone, Copy, PartialEq, Eq, Structural)]
pub enum OutputEvent {
    /// There was no sample for a port in time.
    BufferUnderrun(usize),
}

/// What is there to be played out next.
#[derive(Debug, Clone, Copy)]
pub enum NextSample<S> {
    Sample(RtpSample<S>),
    /// No sample has come yet.
    Empty,
    /// No sample will come any more.
    Disconnected,
}

/// A buffer that holds `value` from `start` on.
pub open spec fn silenced<S>(buffer: Seq<S>, value: S, start: int) -> Seq<S> {
    Seq::new(
        buffer.len(),
        |i: int| if i < start { buffer[i] } else { value },
    )
}

/// Fills a buffer with one value, from `start` on.
pub fn silence<S: Copy>(buffer: &mut [S], value: S, start: usize)
    requires
        start <= old(buffer)@.len(),
    ensures
        final(buffer)@ == silenced(old(buffer)@, value, start as int),
{
    let len = buffer.len();
    fill(buffer, value, start, len);
}

/// Fills a part of a buffer with one value.
fn fill<S: Copy>(buffer: &mut [S], value: S, start: usize, end: usize)
    requires
        start <= end <= old(buffer)@.len(),
    ensures
        final(buffer)@ == old(buffer)@.subrange(0, start as int) + Seq::new(
            (end - start) as nat,
            |i: int| value,
        ) + old(buffer)@.subrange(end as int, old(buffer)@.len() as int),
{
    let ghost before = buffer@;
    let mut i: usize = start;
    while i < end
        invariant
            start <= i <= end,
            end <= before.len(),
            buffer@.len() == before.len(),
            forall|k: int|
                0 <= k < before.len() ==> #[trigger] buffer@[k] == (if start <= k < i {
                    value
                } else {
                    before[k]
                }),
        decreases end - i,
    {
        buffer[i] = value;
        i = i + 1;
    }
    proof {
        assert(buffer@ =~= before.subrange(0, start as int) + Seq::new(
            (end - start) as nat,
            |i: int| value,
        ) + before.subrange(end as int, before.len() as int));
    }
}

/// The state of an output port while one buffer is filled.
#[derive(Debug, Clone, Copy)]
pub struct PlayoutCycle<S> {
    /// Where the next sample goes if it is on time.
    pub index: usize,
    /// The time at which the next sample is due.
    pub media_clock: MediaClockTimestamp,
    /// The value that was played out last.
    pub last: S,
    /// A sample that is due after this buffer.
    pub pending: Option<RtpSample<S>>,
    /// The time that goes on to the next buffer, once there was a sample.
    pub next_clock: Option<MediaClockTimestamp>,
    /// Whether the buffer is full.
    pub finished: bool,
    /// Whether there was no sample in time.
    pub underrun: bool,
}

impl<S: Copy> PlayoutCycle<S> {
    /// By how many samples a sample is early; late, where it is negative.
    pub open spec fn earliness(self, sample: RtpSample<S>) -> int {
        distance(sample.0.timestamp, self.media_clock.timestamp)
    }

    /// Where a sample belongs in the buffer.
    pub open spec fn destination(self, sample: RtpSample<S>) -> int {
        self.index + self.earliness(sample)
    }

    /// Whether a sample belongs before this buffer. The first place of the
    /// buffer is taken by samples that are on time or early only.
    pub open spec fn too_late(self, sample: RtpSample<S>) -> bool {
        self.earliness(sample) < 0 && self.destination(sample) <= 0
    }

    /// Whether a sample belongs behind this buffer.
    pub open spec fn too_early(self, sample: RtpSample<S>, len: nat) -> bool {
        self.earliness(sample) > 0 && self.destination(sample) >= len
    }

    /// The state after a sample was written at its place.
    pub open spec fn with_sample(self, sample: RtpSample<S>, len: nat) -> PlayoutCycle<S> {
        let clock = if self.earliness(sample) == 0 {
            self.media_clock
        } else {
            sample.0
        };
        PlayoutCycle {
            index: (self.destination(sample) + 1) as usize,
            media_clock: clock.moved(1),
            last: sample.1,
            next_clock: Some(clock.moved(1)),
            finished: self.destination(sample) + 1 == len,
            ..self
        }
    }

    /// The state after one step, for a buffer of `len` samples.
    pub open spec fn stepped(self, next: NextSample<S>, len: nat) -> PlayoutCycle<S> {
        match next {
            NextSample::Sample(sample) => if self.too_late(sample) {
                self
            } else if self.too_early(sample, len) {
                PlayoutCycle { pending: Some(sample), finished: true, ..self }
            } else {
                self.with_sample(sample, len)
            },
            NextSample::Empty => PlayoutCycle { finished: true, underrun: true, ..self },
            NextSample::Disconnected => PlayoutCycle { finished: true, ..self },
        }
    }

    /// The buffer after one step. A gap before an early sample, and what is
    /// left where no sample is there, is filled with the last value.
    pub open spec fn played(self, next: NextSample<S>, buffer: Seq<S>) -> Seq<S> {
        match next {
            NextSample::Sample(sample) => if self.too_late(sample) {
                buffer
            } else if self.too_early(sample, buffer.len()) {
                silenced(buffer, self.last, self.index as int)
            } else {
                Seq::new(
                    buffer.len(),
                    |i: int|
                        if i == self.destination(sample) {
                            sample.1
                        } else if self.index <= i < self.destination(sample) {
                            self.last
                        } else {
                            buffer[i]
                        },
                )
            },
            NextSample::Empty | NextSample::Disconnected => silenced(
                buffer,
                self.last,
                self.index as int,
            ),
        }
    }

    /// Whether there is room for a sample.
    pub open spec fn open(self, len: nat) -> bool {
        !self.finished && self.index < len
    }

    /// Starts to fill a buffer. Where the port has no clock yet, it takes the
    /// media clock.
    pub fn begin(
        media_clock: Option<MediaClockTimestamp>,
        pending: Option<RtpSample<S>>,
        now: MediaClockTimestamp,
        silent: S,
    ) -> (cycle: PlayoutCycle<S>)
        ensures
            cycle == (PlayoutCycle {
                index: 0,
                media_clock: match media_clock {
                    Some(clock) => clock,
                    None => now,
                },
                last: silent,
                pending,
                next_clock: None,
                finished: false,
                underrun: false,
            }),
    {
        let media_clock = match media_clock {
            Some(clock) => clock,
            None => now,
        };
        PlayoutCycle {
            index: 0,
            media_clock,
            last: silent,
            pending,
            next_clock: None,
            finished: false,
            underrun: false,
        }
    }

    /// The sample that was left over from the buffer before, if there is one.
    pub fn take_pending(&mut self) -> (sample: Option<RtpSample<S>>)
        ensures
            sample == old(self).pending,
            *final(self) == (PlayoutCycle { pending: None, ..*old(self) }),
    {
        let sample = self.pending;
        self.pending = None;
        sample
    }

    /// Plays out what is there next.
    pub fn step(&mut self, next: NextSample<S>, buffer: &mut [S])
        requires
            old(self).open(old(buffer)@.len()),
        ensures
            *final(self) == old(self).stepped(next, old(buffer)@.len()),
            final(buffer)@ == old(self).played(next, old(buffer)@),
    {
        let len = buffer.len();
        let ghost before = buffer@;
        let ghost start = *self;
        match next {
            NextSample::Sample(sample) => {
                let diff = sample.0.distance_from(&self.media_clock);
                if diff < 0 {
                    let late = (-diff) as u64;
                    if (self.index as u64) <= late {
                        return;
                    }
                    self.index = self.index - late as usize;
                    self.media_clock = sample.0;
                } else if diff > 0 {
                    let early = diff as u64;
                    let room = (len - self.index) as u64;
                    if early >= room {
                        self.pending = Some(sample);
                        self.finished = true;
                        let index = self.index;
                        silence(buffer, self.last, index);
                        return;
                    }
                    let destination: usize = self.index + early as usize;
                    let index = self.index;
                    fill(buffer, self.last, index, destination);
                    self.index = destination;
                    self.media_clock = sample.0;
                }
                let index = self.index;
                assert(index == start.destination(sample));
                buffer[index] = sample.1;
                self.last = sample.1;
                self.index = index + 1;
                self.media_clock = self.media_clock.next();
                self.next_clock = Some(self.media_clock);
                self.finished = self.index == len;
                proof {
                    assert(buffer@ =~= start.played(next, before));
                }
            },
            NextSample::Empty => {
                self.underrun = true;
                self.finished = true;
                let index = self.index;
                silence(buffer, self.last, index);
            },
            NextSample::Disconnected => {
                self.finished = true;
                let index = self.index;
                silence(buffer, self.last, index);
            },
        }
    }
}

impl<S: Copy> PlayoutCycle<S> {
    /// The state and the buffer when samples that have come are played out, until
    /// the buffer is full, and how many of them were used up for that. Where
    /// they are too few, `end` comes after them.
    pub open spec fn played_on(
        self,
        come: Seq<RtpSample<S>>,
        end: NextSample<S>,
        buffer: Seq<S>,
    ) -> (PlayoutCycle<S>, Seq<S>, nat)
        decreases come.len(),
    {
        if !self.open(buffer.len()) {
            (self, buffer, 0)
        } else if come.len() == 0 {
            (self.stepped(end, buffer.len()), self.played(end, buffer), 0)
        } else {
            let next = NextSample::Sample(come[0]);
            let (cycle, filled, used) = self.stepped(next, buffer.len()).played_on(
                come.drop_first(),
                end,
                self.played(next, buffer),
            );
            (cycle, filled, used + 1)
        }
    }

    /// The same where a sample can be left over from the buffer before, which
    /// comes first.
    pub open spec fn played_out(
        self,
        come: Seq<RtpSample<S>>,
        end: NextSample<S>,
        buffer: Seq<S>,
    ) -> (PlayoutCycle<S>, Seq<S>, nat) {
        match self.pending {
            Some(sample) if self.open(buffer.len()) => {
                let next = NextSample::Sample(sample);
                let cycle = PlayoutCycle { pending: None, ..self };
                cycle.stepped(next, buffer.len()).played_on(
                    come,
                    end,
                    cycle.played(next, buffer),
                )
            },
            _ => self.played_on(come, end, buffer),
        }
    }

    /// Plays out samples that have come until the buffer is full. Tells how many
    /// of them were used up.
    pub fn play_out(
        &mut self,
        come: &[RtpSample<S>],
        connected: bool,
        buffer: &mut [S],
    ) -> (used: usize)
        ensures
            (*final(self), final(buffer)@, used as nat) == old(self).played_out(
                come@,
                if connected {
                    NextSample::Empty
                } else {
                    NextSample::Disconnected
                },
                old(buffer)@,
            ),
            used <= come@.len(),
    {
        let end: NextSample<S> = if connected {
            NextSample::Empty
        } else {
            NextSample::Disconnected
        };
        let len = buffer.len();
        if !self.finished && self.index < len {
            match self.take_pending() {
                Some(sample) => {
                    self.step(NextSample::Sample(sample), buffer);
                },
                None => {
                    assert(*self == *old(self));
                },
            }
        }
        let ghost start = *self;
        let ghost first = buffer@;
        let mut used: usize = 0;
        assert(come@.skip(0) =~= come@);
        while !self.finished && self.index < len
            invariant
                used <= come@.len(),
                len == buffer@.len(),
                start.played_on(come@, end, first) == ({
                    let (cycle, filled, more) = self.played_on(
                        come@.skip(used as int),
                        end,
                        buffer@,
                    );
                    (cycle, filled, more + used as nat)
                }),
                end is Empty || end is Disconnected,
            decreases come@.len() - used, (if self.finished { 0int } else { 1int }),
        {
            let ghost left = come@.skip(used as int);
            if used < come.len() {
                let sample = come[used];
                assert(left[0] == sample);
                assert(left.drop_first() =~= come@.skip(used as int + 1));
                self.step(NextSample::Sample(sample), buffer);
                used = used + 1;
            } else {
                assert(left.len() == 0);
                self.step(end, buffer);
            }
        }
        used
    }
}

/// What goes on from one buffer of an output port to the next.
#[derive(Debug, Clone, Copy)]
pub struct PortState<S> {
    /// The time at which the next sample is due, once there was a sample.
    pub media_clock: Option<MediaClockTimestamp>,
    /// A sample that is not due yet.
    pub pending: Option<RtpSample<S>>,
}

/// The mathematical value of the `OutputPorts`.
pub struct OutputPortsModel<S> {
    /// Whether the samples of the receivers can be taken.
    pub ready: bool,
    /// Which ports have a receiver.
    pub active: Seq<bool>,
    pub ports: Seq<PortState<S>>,
}

impl<S> OutputPortsModel<S> {
    /// Whether samples are played out on a port: where the receivers are set up
    /// and one of them plays out on the port.
    pub open spec fn plays(self, port: int) -> bool {
        self.ready && self.active[port]
    }
}

/// The output ports of an audio system that takes samples one by one.
#[derive(Debug)]
pub struct OutputPorts<S> {
    ready: bool,
    active: Vec<bool>,
    ports: Vec<PortState<S>>,
}

impl<S> View for OutputPorts<S> {
    type V = OutputPortsModel<S>;

    closed spec fn view(&self) -> OutputPortsModel<S> {
        OutputPortsModel { ready: self.ready, active: self.active@, ports: self.ports@ }
    }
}

impl<S: Copy> OutputPorts<S> {
    /// Ports of which none has a receiver, before the receivers are set up.
    pub fn new(ports: usize) -> (outputs: OutputPorts<S>)
        ensures
            outputs@ == (OutputPortsModel {
                ready: false,
                active: Seq::new(ports as nat, |i: int| false),
                ports: Seq::new(
                    ports as nat,
                    |i: int| PortState::<S> { media_clock: None, pending: None },
                ),
            }),
    {
        let mut active: Vec<bool> = Vec::new();
        let mut states: Vec<PortState<S>> = Vec::new();
        let mut i: usize = 0;
        while i < ports
            invariant
                i <= ports,
                active@ == Seq::new(i as nat, |k: int| false),
                states@ == Seq::new(
                    i as nat,
                    |k: int| PortState::<S> { media_clock: None, pending: None },
                ),
            decreases ports - i,
        {
            active.push(false);
            states.push(PortState { media_clock: None, pending: None });
            i = i + 1;
        }
        OutputPorts { ready: false, active, ports: states }
    }

    /// The receivers were set up.
    pub fn receivers_ready(&mut self)
        ensures
            final(self)@ == (OutputPortsModel { ready: true, ..old(self)@ }),
    {
        self.ready = true;
    }

    /// Other ports have a receiver now.
    pub fn active_outputs_changed(&mut self, active: Vec<bool>)
        ensures
            final(self)@ == (OutputPortsModel { active: active@, ..old(self)@ }),
    {
        self.active = active;
    }

    /// Decides what goes to a port. Where the receivers are not set up, or the
    /// port has no receiver, its whole buffer is silent. Else its buffer is to
    /// be filled.
    pub fn select(&self, port: usize, silent: S, buffer: &mut [S]) -> (plays: bool)
        requires
            port < self@.active.len(),
        ensures
            plays == self@.plays(port as int),
            final(buffer)@ == (if self@.plays(port as int) {
                old(buffer)@
            } else {
                silenced(old(buffer)@, silent, 0)
            }),
    {
        if self.ready && self.active[port] {
            true
        } else {
            silence(buffer, silent, 0);
            false
        }
    }

    /// Starts to fill the buffer of a port, from where the buffer before it
    /// ended, or from the media clock where the port has no clock yet. A port on
    /// which nothing is played out is silent, and stays as it was.
    pub fn begin(
        &mut self,
        port: usize,
        now: MediaClockTimestamp,
        silent: S,
        buffer: &mut [S],
    ) -> (cycle: Option<PlayoutCycle<S>>)
        requires
            port < old(self)@.active.len(),
            port < old(self)@.ports.len(),
        ensures
            if old(self)@.plays(port as int) {
                let state = old(self)@.ports[port as int];
                &&& cycle == Some(
                    PlayoutCycle {
                        index: 0,
                        media_clock: match state.media_clock {
                            Some(clock) => clock,
                            None => now,
                        },
                        last: silent,
                        pending: state.pending,
                        next_clock: None,
                        finished: false,
                        underrun: false,
                    },
                )
                &&& final(buffer)@ == old(buffer)@
                &&& final(self)@ == (OutputPortsModel {
                    ports: old(self)@.ports.update(
                        port as int,
                        PortState { media_clock: None, pending: None },
                    ),
                    ..old(self)@
                })
            } else {
                &&& cycle is None
                &&& final(buffer)@ == silenced(old(buffer)@, silent, 0)
                &&& final(self)@ == old(self)@
            },
    {
        if !self.select(port, silent, buffer) {
            return None;
        }
        let state = self.ports[port];
        self.ports.set(port, PortState { media_clock: None, pending: None });
        Some(PlayoutCycle::begin(state.media_clock, state.pending, now, silent))
    }

    /// The buffer of a port was filled: keeps what goes on to the next one, and
    /// reports where there was no sample in time.
    pub fn finish(&mut self, port: usize, cycle: PlayoutCycle<S>) -> (event: Option<OutputEvent>)
        requires
            port < old(self)@.ports.len(),
        ensures
            final(self)@ == (OutputPortsModel {
                ports: old(self)@.ports.update(
                    port as int,
                    PortState { media_clock: cycle.next_clock, pending: cycle.pending },
                ),
                ..old(self)@
            }),
            event == (if cycle.underrun {
                Some(OutputEvent::BufferUnderrun(port))
            } else {
                None
            }),
    {
        self.ports.set(
            port,
            PortState { media_clock: cycle.next_clock, pending: cycle.pending },
        );
        if cycle.underrun {
            Some(OutputEvent::BufferUnderrun(port))
        } else {
            None
        }
    }
}

impl<S: Copy> OutputPorts<S> {
    /// Fills the buffer of a port. Where the receivers are not set up, or the
    /// port has no receiver, all of it is silent and nothing else changes. Else
    /// the samples that have come are played out, each at its time. Tells how
    /// many of them were used up, and reports where there was no sample in time.
    pub fn fill(
        &mut self,
        port: usize,
        now: MediaClockTimestamp,
        silent: S,
        come: &[RtpSample<S>],
        connected: bool,
        buffer: &mut [S],
    ) -> (outcome: (usize, Option<OutputEvent>))
        requires
            port < old(self)@.active.len(),
            port < old(self)@.ports.len(),
        ensures
            if old(self)@.plays(port as int) {
                let state = old(self)@.ports[port as int];
                let start = PlayoutCycle {
                    index: 0,
                    media_clock: match state.media_clock {
                        Some(clock) => clock,
                        None => now,
                    },
                    last: silent,
                    pending: state.pending,
                    next_clock: None,
                    finished: false,
                    underrun: false,
                };
                let (cycle, filled, used) = start.played_out(
                    come@,
                    if connected {
                        NextSample::Empty
                    } else {
                        NextSample::Disconnected
                    },
                    old(buffer)@,
                );
                &&& outcome.0 == used
                &&& outcome.1 == (if cycle.underrun {
                    Some(OutputEvent::BufferUnderrun(port))
                } else {
                    None
                })
                &&& final(buffer)@ == filled
                &&& final(self)@ == (OutputPortsModel {
                    ports: old(self)@.ports.update(
                        port as int,
                        PortState { media_clock: cycle.next_clock, pending: cycle.pending },
                    ),
                    ..old(self)@
                })
            } else {
                &&& outcome.0 == 0 && outcome.1 is None
                &&& final(buffer)@ == silenced(old(buffer)@, silent, 0)
                &&& final(self)@ == old(self)@
            },
    {
        match self.begin(port, now, silent, buffer) {
            Some(begun) => {
                let mut cycle = begun;
                let used = cycle.play_out(come, connected, buffer);
                let event = self.finish(port, cycle);
                proof {
                    assert(self@.ports =~= old(self)@.ports.update(
                        port as int,
                        PortState { media_clock: cycle.next_clock, pending: cycle.pending },
                    ));
                }
                (used, event)
            },
            None => (0, None),
        }
    }
}

impl<S: Copy> PlayoutCycle<S> {
    /// The state and the buffer after several samples have come.
    pub open spec fn after_all(self, samples: Seq<RtpSample<S>>, buffer: Seq<S>) -> (
        PlayoutCycle<S>,
        Seq<S>,
    )
        decreases samples.len(),
    {
        if samples.len() == 0 {
            (self, buffer)
        } else {
            let (cycle, filled) = self.after_all(samples.drop_last(), buffer);
            let next = NextSample::Sample(samples.last());
            (cycle.stepped(next, filled.len()), cycle.played(next, filled))
        }
    }

    /// Whether the buffer begins at `base` on the media clock.
    pub open spec fn aligned(self, base: MediaClockTimestamp) -> bool {
        self.media_clock.timestamp == base.moved(self.index as int).timestamp
    }
}

/// Each sample is played out at the time at which it is due: where the buffer
/// begins at `base`, a sample that is neither too late nor too early goes to
/// the place whose time is its own, and the buffer still begins at `base`.
pub proof fn lemma_samples_keep_their_time<S: Copy>(
    cycle: PlayoutCycle<S>,
    sample: RtpSample<S>,
    buffer: Seq<S>,
    base: MediaClockTimestamp,
)
    requires
        cycle.open(buffer.len()),
        cycle.aligned(base),
        !cycle.too_late(sample),
        !cycle.too_early(sample, buffer.len()),
    ensures
        ({
            let next = NextSample::Sample(sample);
            let at = cycle.destination(sample);
            &&& 0 <= at < buffer.len()
            &&& cycle.played(next, buffer)[at] == sample.1
            &&& base.moved(at).timestamp == sample.0.timestamp
            &&& buffer.len() <= usize::MAX ==> cycle.stepped(next, buffer.len()).aligned(base)
        }),
{
    let early = cycle.earliness(sample);
    let at = cycle.destination(sample);
    lemma_moves_add_up(base, cycle.index as int, early);
    lemma_moves_add_up(base, at, 1);
    assert(cycle.media_clock.moved(early).timestamp == sample.0.timestamp);
    assert(base.moved(at).timestamp == sample.0.timestamp);
}

/// Samples that come in time are played out one after the other, and the
/// buffer is finished when it is full.
pub proof fn lemma_samples_in_time_fill_the_buffer<S: Copy>(
    cycle: PlayoutCycle<S>,
    samples: Seq<RtpSample<S>>,
    buffer: Seq<S>,
)
    requires
        cycle.index == 0,
        !cycle.finished,
        samples.len() <= buffer.len() <= usize::MAX,
        forall|i: int|
            0 <= i < samples.len() ==> (#[trigger] samples[i]).0.timestamp
                == cycle.media_clock.moved(i).timestamp,
    ensures
        ({
            let (after, filled) = cycle.after_all(samples, buffer);
            &&& filled.len() == buffer.len()
            &&& forall|i: int|
                0 <= i < buffer.len() ==> #[trigger] filled[i] == (if i < samples.len() {
                    samples[i].1
                } else {
                    buffer[i]
                })
            &&& after.index == samples.len()
            &&& after.media_clock == cycle.media_clock.moved(samples.len() as int)
            &&& after.finished <==> 0 < samples.len() == buffer.len()
            &&& after.underrun == cycle.underrun
            &&& after.pending == cycle.pending
        }),
    decreases samples.len(),
{
    lemma_moves_add_up(cycle.media_clock, 0, 0);
    if samples.len() > 0 {
        let earlier = samples.drop_last();
        assert forall|i: int| 0 <= i < earlier.len() implies (#[trigger] earlier[i]).0.timestamp
            == cycle.media_clock.moved(i).timestamp by {
            assert(earlier[i] == samples[i]);
        }
        lemma_samples_in_time_fill_the_buffer(cycle, earlier, buffer);
        let (now, filled) = cycle.after_all(earlier, buffer);
        let sample = samples.last();
        assert(sample == samples[samples.len() - 1]);
        lemma_moves_add_up(cycle.media_clock, samples.len() - 1, 1);
        assert(now.earliness(sample) == 0);
    }
}

/// The clock of the audio system after it was compared with the media clock:
/// it is set to the media clock where it is off by a buffer or more, and moved
/// by one sample towards it where it is off by less.
pub open spec fn followed(
    clock: MediaClockTimestamp,
    media_clock: MediaClockTimestamp,
    buffer_size: u32,
) -> MediaClockTimestamp {
    let drift = distance(clock.timestamp, media_clock.timestamp);
    if drift >= buffer_size || -drift >= buffer_size {
        media_clock
    } else if drift < 0 {
        clock.moved(1)
    } else if drift > 0 {
        clock.moved(-1)
    } else {
        clock
    }
}

/// Brings the clock of the audio system towards the media clock, for one
/// buffer. Gives the clock for this buffer and the one for the next.
pub fn follow_media_clock(
    audio_clock: Option<MediaClockTimestamp>,
    media_clock: MediaClockTimestamp,
    buffer_size: u32,
) -> (clocks: (MediaClockTimestamp, MediaClockTimestamp))
    ensures
        clocks.0 == followed(
            match audio_clock {
                Some(clock) => clock,
                None => media_clock,
            },
            media_clock,
            buffer_size,
        ),
        clocks.1 == clocks.0.moved(buffer_size as int),
        clocks.1.timestamp == (clocks.0.timestamp + buffer_size) % 0x1_0000_0000,
        audio_clock is None ==> clocks.0 == media_clock,
{
    let mut clock = match audio_clock {
        Some(clock) => clock,
        None => media_clock,
    };
    let drift = clock.distance_from(&media_clock);
    let off = if drift < 0 {
        -drift
    } else {
        drift
    };
    if off >= buffer_size as i64 {
        clock = media_clock;
    } else if drift < 0 {
        clock = clock.next();
    } else if drift > 0 {
        clock = clock.previous();
    }
    (clock, clock.later_by(buffer_size))
}

/// The clock of the audio system never moves away from the media clock: it is
/// set to it, or it comes closer by one sample, or it is there already.
pub proof fn lemma_clock_comes_closer(
    clock: MediaClockTimestamp,
    media_clock: MediaClockTimestamp,
    buffer_size: u32,
)
    ensures
        ({
            let drift = distance(clock.timestamp, media_clock.timestamp);
            let now = distance(
                followed(clock, media_clock, buffer_size).timestamp,
                media_clock.timestamp,
            );
            ||| now == 0
            ||| 0 <= now == drift - 1
            ||| 0 >= now == drift + 1
        }),
{
}

/// What happened to the clock of the audio system.
#[derive(Debug, Clone, Copy, PartialEq, Eq, Structural)]
pub enum ClockEvent {
    /// It was off by that many samples for too long, and was set anew.
    OutOfSync(i64),
    /// It was moved by that many samples.
    Adjusted(i64),
}

/// The clock of an audio system that tolerates being off by a buffer or more
/// for ten buffers in a row.
#[derive(Debug, Clone, Copy, PartialEq, Eq, Structural)]
pub struct AudioClock {
    /// The clock for the next buffer, once there was one.
    pub media_clock: Option<MediaClockTimestamp>,
    /// For how many buffers in a row the clock was off.
    pub drift_counter: usize,
}

impl AudioClock {
    /// The clock before it is compared with the media clock.
    pub open spec fn current(self, media_clock: MediaClockTimestamp) -> MediaClockTimestamp {
        match self.media_clock {
            Some(clock) => clock,
            None => media_clock,
        }
    }

    /// By how many samples the clock is ahead of the media clock.
    pub open spec fn drift(self, media_clock: MediaClockTimestamp) -> int {
        distance(self.current(media_clock).timestamp, media_clock.timestamp)
    }

    /// Whether the clock is off by a buffer or more.
    pub open spec fn off(self, media_clock: MediaClockTimestamp, buffer_size: u32) -> bool {
        let drift = self.drift(media_clock);
        drift >= buffer_size || -drift >= buffer_size
    }

    /// Whether the clock is off for more than ten buffers in a row.
    pub open spec fn persisting(
        self,
        media_clock: MediaClockTimestamp,
        buffer_size: u32,
    ) -> bool {
        self.off(media_clock, buffer_size) && self.drift_counter >= 10
    }

    /// What happens to the clock.
    pub open spec fn event(
        self,
        media_clock: MediaClockTimestamp,
        buffer_size: u32,
    ) -> Option<ClockEvent> {
        if self.persisting(media_clock, buffer_size) {
            Some(ClockEvent::OutOfSync(self.drift(media_clock) as i64))
        } else if self.drift(media_clock) < -1 {
            Some(ClockEvent::Adjusted(1))
        } else if self.drift(media_clock) > 1 {
            Some(ClockEvent::Adjusted((-1) as i64))
        } else {
            None
        }
    }

    /// The clock for this buffer.
    pub open spec fn advanced(
        self,
        media_clock: MediaClockTimestamp,
        buffer_size: u32,
    ) -> MediaClockTimestamp {
        match self.event(media_clock, buffer_size) {
            Some(ClockEvent::OutOfSync(_)) => media_clock,
            Some(ClockEvent::Adjusted(samples)) => self.current(media_clock).moved(
                samples as int,
            ),
            None => self.current(media_clock),
        }
    }

    /// A clock that takes its time from the media clock when it is first used.
    pub fn new() -> (clock: AudioClock)
        ensures
            clock == (AudioClock { media_clock: None, drift_counter: 0 }),
    {
        AudioClock { media_clock: None, drift_counter: 0 }
    }

    /// Compares the clock with the media clock, for one buffer. Gives the
    /// clock for this buffer and tells what happened to it.
    pub fn advance(&mut self, media_clock: MediaClockTimestamp, buffer_size: u32) -> (result: (
        MediaClockTimestamp,
        Option<ClockEvent>,
    ))
        requires
            old(self).drift_counter < usize::MAX,
        ensures
            result.0 == old(self).advanced(media_clock, buffer_size),
            result.1 == old(self).event(media_clock, buffer_size),
            final(self).media_clock == Some(result.0.moved(buffer_size as int)),
            final(self).drift_counter == (if old(self).off(media_clock, buffer_size) {
                (old(self).drift_counter + 1) as usize
            } else {
                0
            }),
    {
        let mut clock = match self.media_clock {
            Some(clock) => clock,
            None => media_clock,
        };
        let drift = clock.distance_from(&media_clock);
        let off = if drift < 0 {
            -drift
        } else {
            drift
        };
        let mut event: Option<ClockEvent> = None;
        let skipped_clock = if off >= buffer_size as i64 {
            self.drift_counter = self.drift_counter + 1;
            let persisting = self.drift_counter > 10;
            if persisting {
                event = Some(ClockEvent::OutOfSync(drift));
                clock = media_clock;
            }
            persisting
        } else {
            self.drift_counter = 0;
            false
        };
        if !skipped_clock && drift < -1 {
            event = Some(ClockEvent::Adjusted(1));
            clock = clock.next();
        }
        if !skipped_clock && drift > 1 {
            event = Some(ClockEvent::Adjusted(-1));
            clock = clock.previous();
        }
        self.media_clock = Some(clock.later_by(buffer_size));
        (clock, event)
    }
}

/// While the clock is off by less than a buffer, it is never set anew, and it
/// comes closer to the media clock by one sample with each buffer until it is
/// off by one sample at most.
pub proof fn lemma_small_drift_is_corrected(
    clock: AudioClock,
    media_clock: MediaClockTimestamp,
    buffer_size: u32,
)
    requires
        !clock.off(media_clock, buffer_size),
    ensures
        ({
            let drift = clock.drift(media_clock);
            let now = distance(
                clock.advanced(media_clock, buffer_size).timestamp,
                media_clock.timestamp,
            );
            &&& !(clock.event(media_clock, buffer_size) matches Some(ClockEvent::OutOfSync(_)))
            &&& drift > 1 ==> now == drift - 1
            &&& drift < -1 ==> now == drift + 1
            &&& -1 <= drift <= 1 ==> now == drift
        }),
{
}

/// A clock that is off by a buffer or more is set to the media clock when it
/// was off for ten buffers in a row before, and not earlier.
pub proof fn lemma_lasting_drift_is_reset(
    clock: AudioClock,
    media_clock: MediaClockTimestamp,
    buffer_size: u32,
)
    requires
        clock.off(media_clock, buffer_size),
    ensures
        clock.drift_counter >= 10 <==> (clock.event(media_clock, buffer_size) matches Some(
            ClockEvent::OutOfSync(_),
        )),
        clock.drift_counter >= 10 ==> clock.advanced(media_clock, buffer_size) == media_clock,
{
}

/// Reads what a port plays out, and goes on with the sequence number at which
/// the port was. Tells where the first sample was missing.
pub fn read_port<S>(
    buffer: &AudioBuffer,
    memory: &[u8],
    numbers: &[u16],
    clock: MediaClockTimestamp,
    sequence_numbers: &mut Vec<Option<u16>>,
    port_nr: usize,
    output: &mut [S],
) -> (underrun: Option<MediaClockTimestamp>) where SampleFormat: SampleReader<S>
    requires
        buffer.usable(),
        buffer.lies_in(memory@, numbers@),
        port_nr < buffer.channels(),
        port_nr < old(sequence_numbers)@.len(),
        forall|bytes: Seq<u8>|
            bytes.len() == 4 ==> #[trigger] <SampleFormat as SampleReader<S>>::readable(
                &SampleFormat::Internal,
                bytes,
            ),
    ensures
        final(output)@.len() == old(output)@.len(),
        forall|i: int|
            0 <= i < final(output)@.len() ==> #[trigger] final(output)@[i] == buffer.played::<S>(
                memory@,
                numbers@,
                clock,
                old(sequence_numbers)@[port_nr as int],
                port_nr as nat,
                i as nat,
            ),
        ({
            let end = buffer.progress(
                memory@,
                numbers@,
                clock,
                old(sequence_numbers)@[port_nr as int],
                port_nr as nat,
                old(output)@.len(),
            );
            &&& underrun == end.underrun
            &&& final(sequence_numbers)@ == old(sequence_numbers)@.update(
                port_nr as int,
                end.sequence_number,
            )
        }),
{
    let seq = sequence_numbers[port_nr];
    let (seq, underrun) = buffer.read(memory, numbers, clock, seq, port_nr, output);
    sequence_numbers[port_nr] = seq;
    underrun
}

/// The name of an input port, counted from 1.
pub fn input_port_name(port: usize) -> (name: String)
    requires
        port < usize::MAX,
    ensures
        name@ == "in"@ + decimal((port + 1) as nat),
{
    numbered("in", (port + 1) as u64)
}

/// The name of an output port, counted from 1.
pub fn output_port_name(port: usize) -> (name: String)
    requires
        port < usize::MAX,
    ensures
        name@ == "out"@ + decimal((port + 1) as nat),
{
    numbered("out", (port + 1) as u64)
}

/// The ports that are connected for an output, both with the name of their
/// client in front.
pub open spec fn connection(port: nat) -> (Seq<char>, Seq<char>) {
    (CLIENT_NAME@ + ":out"@ + decimal(port + 1), "REAPER:in"@ + decimal(port + 1))
}

/// The pairs of ports that are connected for the outputs, in their order.
pub fn port_connections(channels: usize) -> (connections: Vec<(String, String)>)
    ensures
        connections@.len() == channels,
        forall|i: int|
            0 <= i < channels ==> ((#[trigger] connections@[i]).0@, connections@[i].1@)
                == connection(i as nat),
{
    let mut connections: Vec<(String, String)> = Vec::new();
    let mut i: usize = 0;
    while i < channels
        invariant
            i <= channels,
            connections@.len() == i,
            forall|k: int|
                0 <= k < i ==> ((#[trigger] connections@[k]).0@, connections@[k].1@)
                    == connection(k as nat),
        decreases channels - i,
    {
        let prefix = concat(CLIENT_NAME, ":out");
        let tx = numbered(prefix.as_str(), (i + 1) as u64);
        let rx = numbered("REAPER:in", (i + 1) as u64);
        connections.push((tx, rx));
        i = i + 1;
    }
    connections
}

/// The size that the buffers of the audio system get: half of the frames that
/// are due within the link offset, of which 32 bits count.
pub fn audio_system_buffer_size(frames_per_link_offset_buffer: usize) -> (frames: u32)
    ensures
        frames == frames_per_link_offset_buffer as int % 0x1_0000_0000 / 2,
{
    (frames_per_link_offset_buffer as u64 % 0x1_0000_0000) as u32 / 2
}

/// Each sample goes where its time is. For a sample that is due `d` samples after
/// the clock, which is that many places behind the next one in the buffer: where
/// it belongs before the buffer, or is late and belongs to its first place, it is
/// left out and nothing changes; where it belongs behind the buffer, it is kept for
/// later and the rest of the buffer holds the last value; else it stands at its
/// place, a gap before it holds the last value, everything else in the buffer is
/// as it was, and the place and the time behind it are next.
pub proof fn lemma_sample_goes_where_its_time_is<S: Copy>(
    cycle: PlayoutCycle<S>,
    sample: RtpSample<S>,
    buffer: Seq<S>,
    d: int,
)
    requires
        cycle.open(buffer.len()),
        buffer.len() <= usize::MAX,
        -0x8000_0000 <= d < 0x8000_0000,
        sample.0.timestamp == (cycle.media_clock.timestamp + d) % 0x1_0000_0000,
    ensures
        ({
            let at = cycle.index + d;
            let now = cycle.stepped(NextSample::Sample(sample), buffer.len());
            let filled = cycle.played(NextSample::Sample(sample), buffer);
            &&& d < 0 && at <= 0 ==> now == cycle && filled == buffer
            &&& d > 0 && at >= buffer.len() ==> {
                &&& filled.len() == buffer.len()
                &&& forall|i: int|
                    0 <= i < buffer.len() ==> #[trigger] filled[i] == (if i < cycle.index {
                        buffer[i]
                    } else {
                        cycle.last
                    })
                &&& now.pending == Some(sample)
                &&& now.finished
                &&& now.underrun == cycle.underrun
                &&& now.index == cycle.index
                &&& now.media_clock == cycle.media_clock
                &&& now.last == cycle.last
                &&& now.next_clock == cycle.next_clock
            }
            &&& !(d < 0 && at <= 0) && !(d > 0 && at >= buffer.len()) ==> {
                &&& 0 <= at < buffer.len()
                &&& filled.len() == buffer.len()
                &&& filled[at] == sample.1
                &&& forall|i: int|
                    0 <= i < buffer.len() && i != at ==> #[trigger] filled[i] == (if cycle.index
                        <= i < at {
                        cycle.last
                    } else {
                        buffer[i]
                    })
                &&& now.index == at + 1
                &&& now.media_clock.timestamp == (sample.0.timestamp + 1) % 0x1_0000_0000
                &&& now.media_clock.sample_rate == (if d == 0 {
                    cycle.media_clock.sample_rate
                } else {
                    sample.0.sample_rate
                })
                &&& now.next_clock == Some(now.media_clock)
                &&& now.last == sample.1
                &&& now.pending == cycle.pending
                &&& now.underrun == cycle.underrun
                &&& now.finished <==> at + 1 == buffer.len()
            }
        }),
{
    assert(cycle.earliness(sample) == d);
}

/// Where no sample is there, the rest of the buffer holds the last value, and
/// the buffer is finished. That is an underrun where samples can still come, and
/// none where they cannot. Nothing else changes, so the port takes its time from
/// the media clock again where there was no sample for this buffer.
pub proof fn lemma_rest_holds_the_last_value<S: Copy>(cycle: PlayoutCycle<S>, buffer: Seq<S>)
    requires
        cycle.open(buffer.len()),
    ensures
        cycle.played(NextSample::Empty, buffer) == cycle.played(NextSample::Disconnected, buffer),
        cycle.played(NextSample::Empty, buffer).len() == buffer.len(),
        forall|i: int|
            0 <= i < buffer.len() ==> #[trigger] cycle.played(NextSample::Empty, buffer)[i] == (
            if i < cycle.index {
                buffer[i]
            } else {
                cycle.last
            }),
        cycle.stepped(NextSample::Empty, buffer.len()).underrun,
        cycle.stepped(NextSample::Disconnected, buffer.len()).underrun == cycle.underrun,
        cycle.stepped(NextSample::Empty, buffer.len()).finished,
        cycle.stepped(NextSample::Disconnected, buffer.len()).finished,
        cycle.stepped(NextSample::Empty, buffer.len()).next_clock == cycle.next_clock,
        cycle.stepped(NextSample::Disconnected, buffer.len()).next_clock == cycle.next_clock,
        cycle.stepped(NextSample::Empty, buffer.len()).pending == cycle.pending,
        cycle.stepped(NextSample::Disconnected, buffer.len()).pending == cycle.pending,
{
}

/// A sample that was left over from the buffer before comes before all others:
/// it is as if it had come first among them.
pub proof fn lemma_left_over_sample_comes_first<S: Copy>(
    cycle: PlayoutCycle<S>,
    come: Seq<RtpSample<S>>,
    end: NextSample<S>,
    buffer: Seq<S>,
)
    requires
        cycle.open(buffer.len()),
    ensures
        cycle.pending is None ==> cycle.played_out(come, end, buffer) == cycle.played_on(
            come,
            end,
            buffer,
        ),
        cycle.pending matches Some(sample) ==> ({
            let first = PlayoutCycle { pending: None, ..cycle };
            let all = first.played_on(seq![sample] + come, end, buffer);
            let now = cycle.played_out(come, end, buffer);
            &&& now.0 == all.0
            &&& now.1 == all.1
            &&& now.2 + 1 == all.2
        }),
{
    if cycle.pending is Some {
        let all = seq![cycle.pending->0] + come;
        assert(all.drop_first() =~= come);
        assert(all[0] == cycle.pending->0);
    }
}

/// Playing goes on until the buffer is full: then either it is finished or there
/// is no place left. No more samples are used up than have come.
pub proof fn lemma_playing_goes_on_until_the_buffer_is_full<S: Copy>(
    cycle: PlayoutCycle<S>,
    come: Seq<RtpSample<S>>,
    end: NextSample<S>,
    buffer: Seq<S>,
)
    requires
        end is Empty || end is Disconnected,
    ensures
        ({
            let (now, filled, used) = cycle.played_on(come, end, buffer);
            &&& now.finished || now.index >= buffer.len()
            &&& filled.len() == buffer.len()
            &&& used <= come.len()
        }),
    decreases come.len(),
{
    if cycle.open(buffer.len()) && come.len() > 0 {
        let next = NextSample::Sample(come[0]);
        lemma_playing_goes_on_until_the_buffer_is_full(
            cycle.stepped(next, buffer.len()),
            come.drop_first(),
            end,
            cycle.played(next, buffer),
        );
    }
}

/// Samples that come in time are played out one after the other. Where there are
/// enough of them, as many are used up as there are places, and the buffer is full
/// of them. Where there are too few, the last one is held to the end of the
/// buffer, and that is an underrun if more can come.
pub proof fn lemma_samples_in_time_are_played_out<S: Copy>(
    cycle: PlayoutCycle<S>,
    come: Seq<RtpSample<S>>,
    end: NextSample<S>,
    buffer: Seq<S>,
)
    requires
        end is Empty || end is Disconnected,
        !cycle.finished,
        cycle.index < buffer.len() <= usize::MAX,
        forall|i: int|
            0 <= i < come.len() ==> (#[trigger] come[i]).0.timestamp
                == (cycle.media_clock.timestamp + i) % 0x1_0000_0000,
    ensures
        ({
            let (now, filled, used) = cycle.played_on(come, end, buffer);
            let room = buffer.len() - cycle.index;
            let last = if come.len() == 0 {
                cycle.last
            } else {
                come.last().1
            };
            &&& used == (if come.len() < room {
                come.len() as int
            } else {
                room
            })
            &&& filled.len() == buffer.len()
            &&& forall|i: int|
                0 <= i < buffer.len() ==> #[trigger] filled[i] == (if i < cycle.index {
                    buffer[i]
                } else if i - cycle.index < come.len() {
                    come[i - cycle.index].1
                } else {
                    last
                })
            &&& now.finished
            &&& now.pending == cycle.pending
            &&& now.underrun <==> cycle.underrun || (come.len() < room && end is Empty)
            &&& used > 0 ==> now.next_clock is Some && now.next_clock->0.timestamp == (
            cycle.media_clock.timestamp + used) % 0x1_0000_0000
            &&& used == 0 ==> now.next_clock == cycle.next_clock
        }),
    decreases come.len(),
{
    if come.len() > 0 {
        let sample = come[0];
        let next = NextSample::Sample(sample);
        lemma_sample_goes_where_its_time_is(cycle, sample, buffer, 0);
        let now = cycle.stepped(next, buffer.len());
        let rest = come.drop_first();
        if now.index < buffer.len() {
            assert forall|i: int| 0 <= i < rest.len() implies (#[trigger] rest[i]).0.timestamp == (
            now.media_clock.timestamp + i) % 0x1_0000_0000 by {
                assert(rest[i] == come[i + 1]);
                lemma_moves_add_up(cycle.media_clock, 1, i);
            }
            lemma_samples_in_time_are_played_out(now, rest, end, cycle.played(next, buffer));
            lemma_moves_add_up(cycle.media_clock, 1, cycle.played_on(come, end, buffer).2 - 1);
        }
    }
}

/// How the clock of the audio system follows the media clock, which it is `d`
/// samples ahead of. It is set to it where it is off by a buffer or more. Else it
/// is moved by one sample towards it, and not at all where it is there.
pub proof fn lemma_how_the_clock_follows(
    clock: MediaClockTimestamp,
    media_clock: MediaClockTimestamp,
    buffer_size: u32,
    d: int,
)
    requires
        -0x8000_0000 <= d < 0x8000_0000,
        clock.timestamp == (media_clock.timestamp + d) % 0x1_0000_0000,
    ensures
        ({
            let now = followed(clock, media_clock, buffer_size);
            &&& d >= buffer_size || d <= -buffer_size ==> now == media_clock
            &&& -buffer_size < d < 0 ==> now.timestamp == (clock.timestamp + 1) % 0x1_0000_0000
                && now.sample_rate == clock.sample_rate
            &&& 0 < d < buffer_size ==> now.timestamp == (clock.timestamp - 1) % 0x1_0000_0000
                && now.sample_rate == clock.sample_rate
            &&& d == 0 && buffer_size > 0 ==> now == clock
        }),
{
    assert(distance(clock.timestamp, media_clock.timestamp) == d);
}

/// What happens to the clock of an audio system that is `d` samples ahead of the
/// media clock, and was off for `drift_counter` buffers before. It is set to the
/// media clock where it is off by a buffer or more and was for at least ten buffers
/// before, and what is told is by how much. Else it is moved by one sample towards
/// the media clock where it is off by more than one, and left alone where it is
/// not. A clock that was never used is the media clock.
pub proof fn lemma_what_happens_to_the_clock(
    clock: AudioClock,
    media_clock: MediaClockTimestamp,
    buffer_size: u32,
    d: int,
)
    requires
        -0x8000_0000 <= d < 0x8000_0000,
        clock.media_clock matches Some(own) ==> own.timestamp == (media_clock.timestamp + d)
            % 0x1_0000_0000,
        clock.media_clock is None ==> d == 0,
    ensures
        ({
            let own = if clock.media_clock is Some {
                clock.media_clock->0
            } else {
                media_clock
            };
            let now = clock.advanced(media_clock, buffer_size);
            let event = clock.event(media_clock, buffer_size);
            let off = d >= buffer_size || d <= -buffer_size;
            &&& clock.off(media_clock, buffer_size) == off
            &&& off && clock.drift_counter >= 10 ==> now == media_clock && (event matches Some(
                ClockEvent::OutOfSync(drift),
            ) && drift == d)
            &&& !(off && clock.drift_counter >= 10) && d < -1 ==> event == Some(
                ClockEvent::Adjusted(1),
            ) && now.timestamp == (own.timestamp + 1) % 0x1_0000_0000 && now.sample_rate
                == own.sample_rate
            &&& !(off && clock.drift_counter >= 10) && d > 1 ==> (event matches Some(
                ClockEvent::Adjusted(samples),
            ) && samples == -1) && now.timestamp == (own.timestamp - 1) % 0x1_0000_0000
                && now.sample_rate == own.sample_rate
            &&& !(off && clock.drift_counter >= 10) && -1 <= d <= 1 ==> event is None && now == own
        }),
{
    assert(clock.drift(media_clock) == d);
}

/// Nothing is played out on any port before the receivers are set up. After
/// that, it is on those ports that have one, and on no others.
pub proof fn lemma_ports_with_a_receiver_play<S>(outputs: OutputPortsModel<S>, port: int)
    ensures
        !outputs.ready ==> !outputs.plays(port),
        outputs.ready ==> outputs.plays(port) == outputs.active[port],
{
}

/// An output is connected with the input that has its number, and no two outputs
/// with the same one.
pub proof fn lemma_outputs_are_connected_by_number(port: nat, other: nat)
    ensures
        connection(port).0 == "AES67 VirtualSoundCard:out"@ + decimal(port + 1),
        connection(port).1 == "REAPER:in"@ + decimal(port + 1),
        connection(port).0 == connection(other).0 ==> port == other,
        connection(port).1 == connection(other).1 ==> port == other,
{
    reveal_strlit("AES67 VirtualSoundCard:out");
    reveal_strlit("AES67 VirtualSoundCard");
    reveal_strlit(":out");
    let x = decimal(port + 1);
    let y = decimal(other + 1);
    let tx = "AES67 VirtualSoundCard:out"@;
    let rx = "REAPER:in"@;
    assert(tx =~= CLIENT_NAME@ + ":out"@);
    assert((tx + x).skip(tx.len() as int) =~= x);
    assert((tx + y).skip(tx.len() as int) =~= y);
    assert((rx + x).skip(rx.len() as int) =~= x);
    assert((rx + y).skip(rx.len() as int) =~= y);
    lemma_decimal_value(port + 1);
    lemma_decimal_value(other + 1);
}

} // verus!
