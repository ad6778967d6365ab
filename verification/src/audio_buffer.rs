//! The playout buffer: a ring of frames into which received packets are
//! written and from which the audio system reads.
//!
//! The ring lies in memory that the caller provides, one slot of four bytes
//! for each sample and, beside it, the sequence number of the packet that the
//! sample came with.

use crate::descriptor::{DescriptorModel, RxDescriptor};
use crate::format::{
    internal_bytes, lemma_internal_format_keeps_value, lemma_internal_format_layout,
    lemma_internal_samples_are_read, lemma_metadata_bits, with_flag, AudioFormat,
    AudioSystemConfig, BufferConfig, BufferFormat, FrameFormat, SampleFormat, SampleMetadata,
    SampleRatio, SampleReader,
};
use crate::matrix::{
    lemma_lookups_agree, ports_of, Channel, MatrixModel, OutputMatrix, Routes,
};
use crate::media_clock::{shifted, MediaClockTimestamp};
use crate::rtp::{
    header_sequence_number, header_timestamp, is_rtp, next_sequence_number, payload_of, precedes,
    read_rtp, sequence_number_after,
};
use vstd::arithmetic::div_mod::{
    lemma_fundamental_div_mod, lemma_fundamental_div_mod_converse, lemma_mod_bound,
};
use vstd::prelude::*;

verus! {

/// The four bytes of a slot.
pub open spec fn slot(memory: Seq<u8>, index: int) -> Seq<u8> {
    memory.subrange(4 * index, 4 * index + 4)
}

/// The sample of a channel in a frame of a payload; empty where the payload
/// ends before it or where there is no such channel. The last sample of a
/// payload can be shorter than the others.
pub open spec fn sample_at(payload: Seq<u8>, desc: DescriptorModel, frame: int, channel: int) -> Seq<
    u8,
> {
    let start = frame * desc.frame_bytes() + channel * desc.sample_bytes();
    if channel >= desc.channels || start >= payload.len() {
        Seq::empty()
    } else if start + desc.sample_bytes() <= payload.len() {
        payload.subrange(start, start + desc.sample_bytes())
    } else {
        payload.skip(start)
    }
}

/// The number of frames that a payload holds, the last of which can be
/// incomplete.
pub open spec fn frames_in(payload: Seq<u8>, desc: DescriptorModel) -> nat {
    ((payload.len() + desc.frame_bytes() - 1) / desc.frame_bytes() as int) as nat
}

/// The channel of a receiver that is played out on a port.
pub open spec fn channel_on(routes: Routes, receiver: usize, port: usize) -> Option<usize> {
    if routes.contains_key(port) && routes[port].0.transceiver_id == receiver {
        Some(routes[port].0.channel_nr)
    } else {
        None
    }
}

/// Whether a port plays out a channel of the receiver that is below `channel`,
/// or `channel` itself and is among `ports`.
pub open spec fn port_done(
    routes: Routes,
    receiver: usize,
    port: usize,
    channel: nat,
    ports: Seq<usize>,
) -> bool {
    match channel_on(routes, receiver, port) {
        Some(c) => c < channel || (c == channel && ports.contains(port)),
        None => false,
    }
}

/// A packet on its way into the ring.
pub struct Arrival {
    /// The payload of the packet.
    pub payload: Seq<u8>,
    /// The receiver that the packet is for.
    pub desc: DescriptorModel,
    /// The frame of the ring at which the first frame of the packet goes.
    pub start: nat,
    /// The sequence number of the packet.
    pub number: u16,
}

impl Arrival {
    /// What of a channel goes into a frame of the ring out of one frame of the packet.
    pub open spec fn sample_for(self, ring: nat, frame: nat, channel: usize, n: nat) -> Seq<u8> {
        if (self.start + n) % ring == frame {
            sample_at(self.payload, self.desc, n as int, channel as int)
        } else {
            Seq::empty()
        }
    }

    /// What a slot holds once the first `n` frames of the packet are written,
    /// for the slot of a port that plays out `channel` in a ring of `ring` frames.
    pub open spec fn slot_after(
        self,
        before: Seq<u8>,
        ring: nat,
        frame: nat,
        channel: usize,
        n: nat,
    ) -> Seq<u8>
        decreases n,
    {
        if n == 0 {
            before
        } else {
            let earlier = self.slot_after(before, ring, frame, channel, (n - 1) as nat);
            let sample = self.sample_for(ring, frame, channel, (n - 1) as nat);
            if sample.len() > 0 {
                internal_bytes(sample, earlier)
            } else {
                earlier
            }
        }
    }

    /// The sequence number beside that slot.
    pub open spec fn number_after(
        self,
        before: u16,
        ring: nat,
        frame: nat,
        channel: usize,
        n: nat,
    ) -> u16
        decreases n,
    {
        if n == 0 {
            before
        } else if self.sample_for(ring, frame, channel, (n - 1) as nat).len() > 0 {
            self.number
        } else {
            self.number_after(before, ring, frame, channel, (n - 1) as nat)
        }
    }
}

/// The sequence number that is expected next and the first underrun, while a
/// channel is read out.
pub struct Progress {
    pub sequence_number: Option<u16>,
    pub underrun: Option<MediaClockTimestamp>,
}

/// A playout buffer, described by the format of its memory.
#[derive(Debug, Clone, Copy)]
pub struct AudioBuffer {
    pub format: BufferFormat,
}

impl AudioBuffer {
    /// The number of channels of the ring.
    pub open spec fn channels(self) -> nat {
        self.format.audio_format.frame_format.channels as nat
    }

    /// The number of frames of the ring.
    pub open spec fn frames(self) -> nat {
        self.format.frames()
    }

    /// The number of slots of the ring.
    pub open spec fn slots(self) -> nat {
        self.frames() * self.channels()
    }

    /// A ring of samples in the internal format that has at least one frame.
    pub open spec fn usable(self) -> bool {
        &&& self.format.audio_format.frame_format.sample_format == SampleFormat::Internal
        &&& self.format.has_frames()
        &&& self.frames() > 0
    }

    /// Whether the memory has the size of the ring.
    pub open spec fn lies_in(self, memory: Seq<u8>, numbers: Seq<u16>) -> bool {
        &&& memory.len() == 4 * self.slots()
        &&& numbers.len() == self.slots()
    }

    /// The frame of the ring that belongs to a position on the media clock.
    pub open spec fn frame_of(self, timestamp: u32) -> nat {
        timestamp as nat % self.frames()
    }

    /// The slot of a channel in a frame.
    pub open spec fn slot_index(self, frame: nat, channel: nat) -> int {
        (frame * self.channels() + channel) as int
    }

    /// The position at which the first frame of a packet is played out: half
    /// of the buffer length after the position at which it was sent.
    pub open spec fn playout_position(self, timestamp: u32, desc: DescriptorModel) -> u32 {
        shifted(shifted(timestamp, -desc.rtp_offset), self.format.buffer_len as int / 2)
    }

    /// The packet as it goes into this ring.
    pub open spec fn arrival(self, packet: Seq<u8>, desc: DescriptorModel) -> Arrival {
        Arrival {
            payload: payload_of(packet),
            desc,
            start: self.frame_of(
                self.playout_position(header_timestamp(packet) as u32, desc),
            ),
            number: header_sequence_number(packet) as u16,
        }
    }

    /// What a slot holds, and which number stands beside it, after a packet
    /// was written that has `n` frames.
    pub open spec fn received(
        self,
        memory: Seq<u8>,
        numbers: Seq<u16>,
        arrival: Arrival,
        routes: Routes,
        n: nat,
        index: int,
    ) -> (Seq<u8>, u16) {
        let frame = (index / self.channels() as int) as nat;
        let port = (index % self.channels() as int) as usize;
        match channel_on(routes, arrival.desc.id, port) {
            Some(channel) => (
                arrival.slot_after(slot(memory, index), self.frames(), frame, channel, n),
                arrival.number_after(numbers[index], self.frames(), frame, channel, n),
            ),
            None => (slot(memory, index), numbers[index]),
        }
    }

    /// Whether the memory holds what it held before, with the first `n`
    /// frames of a packet written into it, and of the frame after these what
    /// goes to the ports that are done: those that play out a channel below
    /// `channel`, or `channel` itself and are among `ports`.
    pub open spec fn partly_received(
        self,
        before: (Seq<u8>, Seq<u16>),
        now: (Seq<u8>, Seq<u16>),
        arrival: Arrival,
        routes: Routes,
        n: nat,
        channel: nat,
        ports: Seq<usize>,
    ) -> bool {
        &&& self.lies_in(now.0, now.1)
        &&& forall|index: int|
            0 <= index < self.slots() ==> (#[trigger] slot(now.0, index), now.1[index])
                == self.received(
                before.0,
                before.1,
                arrival,
                routes,
                if port_done(
                    routes,
                    arrival.desc.id,
                    (index % self.channels() as int) as usize,
                    channel,
                    ports,
                ) {
                    n + 1
                } else {
                    n
                },
                index,
            )
    }

    /// A byte of the memory after the slots of the ports were switched off
    /// that play out a channel of a receiver below `limit`: the metadata of
    /// such a slot is marked as disabled and muted, and nothing else changes.
    pub open spec fn switched_byte(
        self,
        memory: Seq<u8>,
        receiver: usize,
        routes: Routes,
        limit: nat,
        i: int,
    ) -> u8 {
        let port = ((i / 4) % self.channels() as int) as usize;
        if i % 4 == 0 && (channel_on(routes, receiver, port) matches Some(c) && c < limit) {
            with_flag(with_flag(memory[i], 0x08, true), 0x20, true)
        } else {
            memory[i]
        }
    }

    /// The memory after all of the channels of a receiver were switched off.
    pub open spec fn switched_off(
        self,
        memory: Seq<u8>,
        desc: DescriptorModel,
        routes: Routes,
    ) -> Seq<u8> {
        Seq::new(
            memory.len(),
            |i: int| self.switched_byte(memory, desc.id, routes, desc.channels as nat, i),
        )
    }

    /// Whether each sample of a payload that is played out somewhere has a
    /// width that can be stored, and goes to a channel of the ring.
    pub open spec fn can_store(
        self,
        payload: Seq<u8>,
        desc: DescriptorModel,
        matrix: MatrixModel,
    ) -> bool {
        &&& 0 < desc.frame_bytes() <= usize::MAX
        &&& forall|port: usize|
            channel_on(matrix.routes, desc.id, port) is Some ==> port < self.channels()
        &&& forall|frame: int, channel: usize|
            0 <= frame < frames_in(payload, desc) && ports_of(
                matrix.routes,
                Channel { transceiver_id: desc.id, channel_nr: channel },
                matrix.channels as nat,
            ).len() > 0 ==> {
                let len = (#[trigger] sample_at(payload, desc, frame, channel as int)).len();
                len == 0 || len == 2 || len == 3
            }
    }

    /// The slot that is read for a channel, `i` frames after a position.
    pub open spec fn read_index(self, timestamp: u32, channel: nat, i: nat) -> int {
        self.slot_index(
            (self.frame_of(timestamp) + i) % self.frames(),
            channel,
        )
    }

    /// Whether the sample of a slot is not the one that is due: its packet is
    /// neither the current one nor the next.
    pub open spec fn missed(expected: Option<u16>, number: u16) -> bool {
        match expected {
            Some(current) => number != current && number != next_sequence_number(current),
            None => false,
        }
    }

    /// How far reading a channel has come after `i` frames.
    pub open spec fn progress(
        self,
        memory: Seq<u8>,
        numbers: Seq<u16>,
        position: MediaClockTimestamp,
        sequence_number: Option<u16>,
        channel: nat,
        i: nat,
    ) -> Progress
        decreases i,
    {
        if i == 0 {
            Progress { sequence_number, underrun: None }
        } else {
            let earlier = self.progress(
                memory,
                numbers,
                position,
                sequence_number,
                channel,
                (i - 1) as nat,
            );
            let index = self.read_index(position.timestamp, channel, (i - 1) as nat);
            let disabled = slot(memory, index)[0].disabled();
            if Self::missed(earlier.sequence_number, numbers[index]) {
                Progress {
                    sequence_number: if disabled {
                        None
                    } else {
                        Some(next_sequence_number(earlier.sequence_number->0))
                    },
                    underrun: if !disabled && earlier.underrun is None {
                        Some(position.moved(i - 1))
                    } else {
                        earlier.underrun
                    },
                }
            } else {
                Progress { sequence_number: Some(numbers[index]), underrun: earlier.underrun }
            }
        }
    }

    /// Whether the sample that is read `i` frames after a position is silent.
    pub open spec fn silent(
        self,
        memory: Seq<u8>,
        numbers: Seq<u16>,
        position: MediaClockTimestamp,
        sequence_number: Option<u16>,
        channel: nat,
        i: nat,
    ) -> bool {
        let index = self.read_index(position.timestamp, channel, i);
        let metadata = slot(memory, index)[0];
        ||| metadata.disabled()
        ||| metadata.muted()
        ||| Self::missed(
            self.progress(memory, numbers, position, sequence_number, channel, i).sequence_number,
            numbers[index],
        )
    }

    /// The sample that is read `i` frames after a position.
    pub open spec fn played<S>(
        self,
        memory: Seq<u8>,
        numbers: Seq<u16>,
        position: MediaClockTimestamp,
        sequence_number: Option<u16>,
        channel: nat,
        i: nat,
    ) -> S where SampleFormat: SampleReader<S> {
        let index = self.read_index(position.timestamp, channel, i);
        let format = SampleFormat::Internal;
        if self.silent(memory, numbers, position, sequence_number, channel, i) {
            <SampleFormat as SampleReader<S>>::silence(&format)
        } else {
            match <SampleFormat as SampleReader<S>>::sample_in(&format, slot(memory, index)) {
                Some(sample) => sample,
                None => <SampleFormat as SampleReader<S>>::silence(&format),
            }
        }
    }
}

proof fn lemma_index(frame: int, channel: int, channels: int, frames: int)
    requires
        0 <= channel < channels,
        0 <= frame < frames,
    ensures
        0 <= frame * channels + channel < frames * channels,
        (frame * channels + channel) / channels == frame,
        (frame * channels + channel) % channels == channel,
{
    assert(frame * channels + channels <= frames * channels) by (nonlinear_arith)
        requires
            frame + 1 <= frames,
            channels > 0,
    ;
    assert(0 <= frame * channels) by (nonlinear_arith)
        requires
            0 <= frame,
            0 < channels,
    ;
    lemma_fundamental_div_mod_converse(frame * channels + channel, channels, frame, channel);
}

proof fn lemma_split_index(index: int, channels: int, frames: int)
    requires
        0 <= index < frames * channels,
        channels > 0,
    ensures
        0 <= index / channels < frames,
        0 <= index % channels < channels,
        index == (index / channels) * channels + index % channels,
{
    lemma_fundamental_div_mod(index, channels);
    lemma_mod_bound(index, channels);
    assert(index / channels < frames) by (nonlinear_arith)
        requires
            index == channels * (index / channels) + index % channels,
            0 <= index % channels,
            index < frames * channels,
            channels > 0,
    ;
    assert(0 <= index / channels) by (nonlinear_arith)
        requires
            0 <= index,
            channels > 0,
    ;
    assert((index / channels) * channels == channels * (index / channels)) by (nonlinear_arith);
}

/// A frame starts within the payload exactly where it is one of its frames.
proof fn lemma_frames_in(payload: Seq<u8>, desc: DescriptorModel, n: nat)
    requires
        desc.frame_bytes() > 0,
    ensures
        n * desc.frame_bytes() < payload.len() <==> n < frames_in(payload, desc),
{
    let size = desc.frame_bytes() as int;
    let total = payload.len() + size - 1;
    let count = total / size;
    lemma_fundamental_div_mod(total, size);
    lemma_mod_bound(total, size);
    assert(count >= 0) by (nonlinear_arith)
        requires
            total >= 0,
            size > 0,
            count == total / size,
    ;
    assert((n * size < payload.len()) <==> (n < count)) by (nonlinear_arith)
        requires
            total == size * count + total % size,
            0 <= total % size < size,
            total == payload.len() + size - 1,
            size > 0,
    ;
}

/// Where a channel has nothing in a frame of the packet, the slots of the
/// port that plays it out stay as they are.
proof fn lemma_nothing_received(
    buffer: AudioBuffer,
    memory: Seq<u8>,
    numbers: Seq<u16>,
    arrival: Arrival,
    routes: Routes,
    n: nat,
    index: int,
)
    requires
        match channel_on(
            routes,
            arrival.desc.id,
            (index % buffer.channels() as int) as usize,
        ) {
            Some(c) => arrival.sample_for(
                buffer.frames(),
                (index / buffer.channels() as int) as nat,
                c,
                n,
            ).len() == 0,
            None => true,
        },
    ensures
        buffer.received(memory, numbers, arrival, routes, n + 1, index) == buffer.received(
            memory,
            numbers,
            arrival,
            routes,
            n,
            index,
        ),
{
}

/// The bytes of a frame of a payload.
pub open spec fn frame_at(payload: Seq<u8>, desc: DescriptorModel, frame: int) -> Seq<u8> {
    let start = frame * desc.frame_bytes();
    if start + desc.frame_bytes() <= payload.len() {
        payload.subrange(start, start + desc.frame_bytes())
    } else {
        payload.skip(start)
    }
}

/// As long as no port is done, the memory holds the frames before.
proof fn lemma_none_done(
    buffer: AudioBuffer,
    before: (Seq<u8>, Seq<u16>),
    now: (Seq<u8>, Seq<u16>),
    arrival: Arrival,
    routes: Routes,
    n: nat,
)
    requires
        buffer.lies_in(now.0, now.1),
    ensures
        buffer.partly_received(before, now, arrival, routes, n, 0, Seq::empty()) <==> (forall|
            index: int,
        |
            0 <= index < buffer.slots() ==> (#[trigger] slot(now.0, index), now.1[index])
                == buffer.received(before.0, before.1, arrival, routes, n, index)),
        n == 0 && before == now ==> buffer.partly_received(
            before,
            now,
            arrival,
            routes,
            n,
            0,
            Seq::empty(),
        ),
{
    assert forall|port: usize|
        !(#[trigger] port_done(routes, arrival.desc.id, port, 0, Seq::empty())) by {}
}

/// Once all of the ports of a channel are done, so are the ports of the
/// channels up to it.
proof fn lemma_channel_done(
    buffer: AudioBuffer,
    before: (Seq<u8>, Seq<u16>),
    now: (Seq<u8>, Seq<u16>),
    arrival: Arrival,
    matrix: MatrixModel,
    n: nat,
    channel: usize,
)
    requires
        buffer.partly_received(
            before,
            now,
            arrival,
            matrix.routes,
            n,
            channel as nat,
            ports_of(
                matrix.routes,
                Channel { transceiver_id: arrival.desc.id, channel_nr: channel },
                matrix.channels as nat,
            ),
        ),
        forall|port: usize|
            #[trigger] matrix.routes.contains_key(port) ==> port < matrix.channels,
    ensures
        buffer.partly_received(
            before,
            now,
            arrival,
            matrix.routes,
            n,
            channel as nat + 1,
            Seq::empty(),
        ),
{
    let ch = Channel { transceiver_id: arrival.desc.id, channel_nr: channel };
    let ports = ports_of(matrix.routes, ch, matrix.channels as nat);
    assert forall|port: usize|
        port_done(matrix.routes, arrival.desc.id, port, channel as nat, ports) == (
        #[trigger] port_done(
            matrix.routes,
            arrival.desc.id,
            port,
            channel as nat + 1,
            Seq::empty(),
        )) by {
        lemma_lookups_agree(matrix.routes, ch, matrix.channels as nat, port);
    }
}

proof fn lemma_next_frame(position: int, frames: int)
    requires
        position >= 0,
        frames > 0,
    ensures
        0 <= position % frames < frames,
        (position + 1) % frames == (if position % frames + 1 == frames {
            0
        } else {
            position % frames + 1
        }),
{
    lemma_mod_bound(position, frames);
    lemma_fundamental_div_mod(position, frames);
    let q = position / frames;
    if position % frames + 1 == frames {
        assert(position + 1 == (q + 1) * frames) by (nonlinear_arith)
            requires
                position == frames * q + position % frames,
                position % frames + 1 == frames,
        ;
        lemma_fundamental_div_mod_converse(position + 1, frames, q + 1, 0);
    } else {
        assert(position + 1 == q * frames + (position % frames + 1)) by (nonlinear_arith)
            requires
                position == frames * q + position % frames,
        ;
        lemma_fundamental_div_mod_converse(position + 1, frames, q, position % frames + 1);
    }
}

fn write_slot(memory: &mut [u8], numbers: &mut [u16], index: usize, sample: &[u8], number: u16)
    requires
        4 * index + 4 <= old(memory)@.len(),
        index < old(numbers)@.len(),
        sample@.len() == 2 || sample@.len() == 3,
    ensures
        final(memory)@.len() == old(memory)@.len(),
        slot(final(memory)@, index as int) == internal_bytes(
            sample@,
            slot(old(memory)@, index as int),
        ),
        forall|i: int|
            i != index && 0 <= i && 4 * i + 4 <= old(memory)@.len() ==> #[trigger] slot(
                final(memory)@,
                i,
            ) == slot(old(memory)@, i),
        final(numbers)@ == old(numbers)@.update(index as int, number),
{
    let ghost before = memory@;
    let len: usize = memory.len();
    assert(4 * index + 4 <= len);
    let start: usize = 4 * index;
    let (head, rest) = memory.split_at_mut(start);
    let (target, tail) = rest.split_at_mut(4);
    assert(target@ =~= slot(before, index as int));
    SampleFormat::to_internal_format(sample, target);
    numbers[index] = number;
}

impl AudioBuffer {
    /// Writes a sample of the frame `n` of a packet to all of the ports that
    /// play it out.
    fn store_sample(
        &self,
        memory: &mut [u8],
        numbers: &mut [u16],
        frame: usize,
        channel: usize,
        outputs: &Vec<usize>,
        sample: &[u8],
        number: u16,
        Ghost(before): Ghost<(Seq<u8>, Seq<u16>)>,
        Ghost(arrival): Ghost<Arrival>,
        Ghost(matrix): Ghost<MatrixModel>,
        Ghost(n): Ghost<nat>,
    )
        requires
            self.usable(),
            self.partly_received(
                before,
                (old(memory)@, old(numbers)@),
                arrival,
                matrix.routes,
                n,
                channel as nat,
                Seq::empty(),
            ),
            frame == (arrival.start + n) % self.frames(),
            outputs@ == ports_of(
                matrix.routes,
                Channel { transceiver_id: arrival.desc.id, channel_nr: channel },
                matrix.channels as nat,
            ),
            sample@ == sample_at(arrival.payload, arrival.desc, n as int, channel as int),
            sample@.len() == 2 || sample@.len() == 3,
            number == arrival.number,
            forall|port: usize|
                channel_on(matrix.routes, arrival.desc.id, port) is Some ==> port
                    < self.channels(),
        ensures
            self.partly_received(
                before,
                (final(memory)@, final(numbers)@),
                arrival,
                matrix.routes,
                n,
                channel as nat,
                outputs@,
            ),
    {
        let ghost ch = Channel { transceiver_id: arrival.desc.id, channel_nr: channel };
        let channels = self.format.audio_format.frame_format.channels;
        let slots: usize = numbers.len();
        let mut k: usize = 0;
        while k < outputs.len()
            invariant
                k <= outputs@.len(),
                self.usable(),
                channels == self.channels(),
                slots == self.slots(),
                self.partly_received(
                    before,
                    (memory@, numbers@),
                    arrival,
                    matrix.routes,
                    n,
                    channel as nat,
                    outputs@.take(k as int),
                ),
                frame == (arrival.start + n) % self.frames(),
                ch == (Channel { transceiver_id: arrival.desc.id, channel_nr: channel }),
                outputs@ == ports_of(matrix.routes, ch, matrix.channels as nat),
                sample@ == sample_at(arrival.payload, arrival.desc, n as int, channel as int),
                sample@.len() == 2 || sample@.len() == 3,
                number == arrival.number,
                forall|port: usize|
                    channel_on(matrix.routes, arrival.desc.id, port) is Some ==> port
                        < self.channels(),
            decreases outputs@.len() - k,
        {
            let output = outputs[k];
            let ghost done = outputs@.take(k as int);
            let ghost now_done = outputs@.take(k + 1);
            proof {
                lemma_lookups_agree(matrix.routes, ch, matrix.channels as nat, output);
                assert(outputs@.contains(output));
                assert(channel_on(matrix.routes, arrival.desc.id, output) == Some(channel));
                assert(!done.contains(output)) by {
                    if done.contains(output) {
                        let j = choose|j: int| 0 <= j < done.len() && done[j] == output;
                        assert(outputs@[j] < outputs@[k as int]);
                    }
                }
                lemma_index(
                    frame as int,
                    output as int,
                    channels as int,
                    self.frames() as int,
                );
                assert(frame * channels <= frame * channels + output);
            }
            let index: usize = frame * channels + output;
            let ghost (memory_before, numbers_before) = (memory@, numbers@);
            write_slot(memory, numbers, index, sample, number);
            proof {
                assert forall|i: int| 0 <= i < self.slots() implies (
                    #[trigger] slot(memory@, i),
                    numbers@[i],
                ) == self.received(
                    before.0,
                    before.1,
                    arrival,
                    matrix.routes,
                    if port_done(
                        matrix.routes,
                        arrival.desc.id,
                        (i % self.channels() as int) as usize,
                        channel as nat,
                        now_done,
                    ) {
                        n + 1
                    } else {
                        n
                    },
                    i,
                ) by {
                    lemma_split_index(i, channels as int, self.frames() as int);
                    let port = (i % self.channels() as int) as usize;
                    assert((
                        slot(memory_before, i),
                        numbers_before[i],
                    ) == self.received(
                        before.0,
                        before.1,
                        arrival,
                        matrix.routes,
                        if port_done(
                            matrix.routes,
                            arrival.desc.id,
                            port,
                            channel as nat,
                            done,
                        ) {
                            n + 1
                        } else {
                            n
                        },
                        i,
                    ));
                    assert(now_done =~= done.push(output));
                    if port == output {
                        assert(now_done[k as int] == output);
                        assert(now_done.contains(port));
                        if i != index {
                            assert(i / channels as int != frame);
                            lemma_nothing_received(
                                *self,
                                before.0,
                                before.1,
                                arrival,
                                matrix.routes,
                                n,
                                i,
                            );
                        }
                    } else {
                        assert(now_done.contains(port) == done.contains(port)) by {
                            if done.contains(port) {
                                let j = choose|j: int| 0 <= j < done.len() && done[j] == port;
                                assert(now_done[j] == port);
                            }
                            if now_done.contains(port) {
                                let j = choose|j: int|
                                    0 <= j < now_done.len() && now_done[j] == port;
                                assert(done[j] == port);
                            }
                        }
                    }
                }
            }
            k = k + 1;
        }
        assert(outputs@.take(k as int) =~= outputs@);
    }

    /// Writes the frame `n` of a packet into a frame of the ring.
    fn store_frame(
        &self,
        memory: &mut [u8],
        numbers: &mut [u16],
        frame: usize,
        packet_frame: &[u8],
        desc: &RxDescriptor,
        matrix: &OutputMatrix,
        number: u16,
        Ghost(before): Ghost<(Seq<u8>, Seq<u16>)>,
        Ghost(arrival): Ghost<Arrival>,
        Ghost(n): Ghost<nat>,
    )
        requires
            self.usable(),
            matrix.wf(),
            self.partly_received(
                before,
                (old(memory)@, old(numbers)@),
                arrival,
                matrix@.routes,
                n,
                0,
                Seq::empty(),
            ),
            arrival.desc == desc@,
            number == arrival.number,
            frame == (arrival.start + n) % self.frames(),
            self.can_store(arrival.payload, desc@, matrix@),
            n < frames_in(arrival.payload, desc@),
            packet_frame@ == frame_at(arrival.payload, desc@, n as int),
        ensures
            self.partly_received(
                before,
                (final(memory)@, final(numbers)@),
                arrival,
                matrix@.routes,
                n + 1,
                0,
                Seq::empty(),
            ),
    {
        let width = desc.bytes_per_sample();
        let len = packet_frame.len();
        let ghost size = desc@.frame_bytes();
        proof {
            lemma_frames_in(arrival.payload, desc@, n);
            assert(width > 0) by (nonlinear_arith)
                requires
                    size == desc@.channels * width,
                    size > 0,
            ;
        }
        let mut channel: usize = 0;
        let mut pos: usize = 0;
        while pos < len
            invariant
                self.usable(),
                matrix.wf(),
                self.partly_received(
                    before,
                    (memory@, numbers@),
                    arrival,
                    matrix@.routes,
                    n,
                    channel as nat,
                    Seq::empty(),
                ),
                arrival.desc == desc@,
                number == arrival.number,
                frame == (arrival.start + n) % self.frames(),
                self.can_store(arrival.payload, desc@, matrix@),
                n < frames_in(arrival.payload, desc@),
                n * size < arrival.payload.len(),
                packet_frame@ == frame_at(arrival.payload, desc@, n as int),
                len == packet_frame@.len(),
                width == desc@.sample_bytes(),
                width > 0,
                size == desc@.frame_bytes(),
                pos <= len,
                channel <= pos,
                pos < len ==> pos == channel * width,
                pos == len ==> len <= channel * width,
            decreases len - pos,
        {
            let end: usize = if len - pos < width {
                len
            } else {
                pos + width
            };
            let sample = &packet_frame[pos..end];
            let receiver_channel = Channel::new(desc.id, channel);
            proof {
                assert(channel < desc@.channels) by (nonlinear_arith)
                    requires
                        channel * width < len,
                        len <= size,
                        size == desc@.channels * width,
                        width > 0,
                ;
                assert(channel * width + width <= size) by (nonlinear_arith)
                    requires
                        channel + 1 <= desc@.channels,
                        size == desc@.channels * width,
                        width > 0,
                ;
                assert((channel + 1) * width == channel * width + width) by (nonlinear_arith);
                assert(sample@ =~= sample_at(arrival.payload, desc@, n as int, channel as int));
            }
            match matrix.get_outputs(&receiver_channel) {
                Some(outputs) => {
                    proof {
                        let found = sample_at(arrival.payload, desc@, n as int, channel as int);
                        assert(found.len() == 0 || found.len() == 2 || found.len() == 3);
                    }
                    self.store_sample(
                        memory,
                        numbers,
                        frame,
                        channel,
                        outputs,
                        sample,
                        number,
                        Ghost(before),
                        Ghost(arrival),
                        Ghost(matrix@),
                        Ghost(n),
                    );
                },
                None => {},
            }
            proof {
                let ports = ports_of(matrix@.routes, receiver_channel, matrix@.channels as nat);
                matrix.lemma_ports_exist();
                assert(ports.len() == 0 ==> ports =~= Seq::empty());
                lemma_channel_done(
                    *self,
                    before,
                    (memory@, numbers@),
                    arrival,
                    matrix@,
                    n,
                    channel,
                );
            }
            channel = channel + 1;
            pos = end;
        }
        proof {
            assert forall|index: int| 0 <= index < self.slots() implies (
                #[trigger] slot(memory@, index),
                numbers@[index],
            ) == self.received(before.0, before.1, arrival, matrix@.routes, n + 1, index) by {
                let port = (index % self.channels() as int) as usize;
                match channel_on(matrix@.routes, arrival.desc.id, port) {
                    Some(c) => {
                        if c >= channel {
                            assert(n * size + c * width >= n * size + len) by (nonlinear_arith)
                                requires
                                    c >= channel,
                                    len <= channel * width,
                            ;
                            assert(len < size ==> n * size + len == arrival.payload.len());
                            if len == size {
                                assert(c >= desc@.channels) by (nonlinear_arith)
                                    requires
                                        c >= channel,
                                        size <= channel * width,
                                        size == desc@.channels * width,
                                        width > 0,
                                ;
                            }
                            lemma_nothing_received(
                                *self,
                                before.0,
                                before.1,
                                arrival,
                                matrix@.routes,
                                n,
                                index,
                            );
                        }
                    },
                    None => {},
                }
            }
            lemma_none_done(*self, before, (memory@, numbers@), arrival, matrix@.routes, n + 1);
        }
    }

    /// Writes the samples of a packet into the ring, at the position at which
    /// they are to be played out, on all of the ports to which they are
    /// routed. What is not an RTP packet is left out.
    pub fn insert(
        &self,
        memory: &mut [u8],
        numbers: &mut [u16],
        rtp_packet: &[u8],
        desc: &RxDescriptor,
        matrix: &OutputMatrix,
    )
        requires
            self.usable(),
            self.lies_in(old(memory)@, old(numbers)@),
            matrix.wf(),
            is_rtp(rtp_packet@) ==> self.can_store(payload_of(rtp_packet@), desc@, matrix@),
        ensures
            self.lies_in(final(memory)@, final(numbers)@),
            !is_rtp(rtp_packet@) ==> final(memory)@ == old(memory)@ && final(numbers)@ == old(
                numbers,
            )@,
            is_rtp(rtp_packet@) ==> forall|index: int|
                0 <= index < self.slots() ==> (
                    #[trigger] slot(final(memory)@, index),
                    final(numbers)@[index],
                ) == self.received(
                    old(memory)@,
                    old(numbers)@,
                    self.arrival(rtp_packet@, desc@),
                    matrix@.routes,
                    frames_in(payload_of(rtp_packet@), desc@),
                    index,
                ),
    {
        let rtp = match read_rtp(rtp_packet) {
            Some(it) => it,
            None => {
                return;
            },
        };
        let ghost before = (memory@, numbers@);
        let ghost arrival = self.arrival(rtp_packet@, desc@);
        let reception_timestamp = MediaClockTimestamp::new(
            rtp.timestamp,
            self.format.audio_format.sample_rate,
        ).earlier_by(desc.rtp_offset);
        let playout_timestamp = reception_timestamp.later_by_frames(self.format.buffer_len / 2);
        let frames_per_buffer = self.format.frames_per_buffer();
        let payload = rtp.payload.as_slice();
        let len = payload.len();
        let bytes_per_frame = desc.bytes_per_frame();
        let mut frame: usize = (playout_timestamp.timestamp as u64 % frames_per_buffer as u64)
            as usize;
        let mut start: usize = 0;
        let ghost mut n: nat = 0;
        proof {
            lemma_none_done(*self, before, before, arrival, matrix@.routes, 0);
            assert(arrival.start % self.frames() == arrival.start) by {
                vstd::arithmetic::div_mod::lemma_small_mod(arrival.start, self.frames());
            }
        }
        while start < len
            invariant
                self.usable(),
                matrix.wf(),
                self.partly_received(
                    before,
                    (memory@, numbers@),
                    arrival,
                    matrix@.routes,
                    n,
                    0,
                    Seq::empty(),
                ),
                arrival.desc == desc@,
                arrival.payload == payload@,
                rtp.sequence_number == arrival.number,
                len == payload@.len(),
                bytes_per_frame == desc@.frame_bytes(),
                bytes_per_frame > 0,
                frames_per_buffer == self.frames(),
                frame == (arrival.start + n) % self.frames(),
                self.can_store(arrival.payload, desc@, matrix@),
                start <= len,
                start < len ==> start == n * bytes_per_frame,
                start == len ==> len <= n * bytes_per_frame,
                n <= frames_in(arrival.payload, desc@),
            decreases len - start,
        {
            let end: usize = if len - start < bytes_per_frame {
                len
            } else {
                start + bytes_per_frame
            };
            let packet_frame = &payload[start..end];
            proof {
                lemma_frames_in(arrival.payload, desc@, n);
                assert((n + 1) * bytes_per_frame == n * bytes_per_frame + bytes_per_frame)
                    by (nonlinear_arith);
                assert(packet_frame@ =~= frame_at(arrival.payload, desc@, n as int));
                lemma_next_frame((arrival.start + n) as int, self.frames() as int);
            }
            self.store_frame(
                memory,
                numbers,
                frame,
                packet_frame,
                desc,
                matrix,
                rtp.sequence_number,
                Ghost(before),
                Ghost(arrival),
                Ghost(n),
            );
            frame = if frame + 1 == frames_per_buffer {
                0
            } else {
                frame + 1
            };
            proof {
                n = n + 1;
            }
            start = end;
        }
        proof {
            lemma_frames_in(arrival.payload, desc@, n);
            lemma_none_done(*self, before, (memory@, numbers@), arrival, matrix@.routes, n);
        }
    }

    /// Whether the samples that a channel has in a payload have a width that
    /// can be stored.
    fn channel_fits(payload: &[u8], desc: &RxDescriptor, channel: usize) -> (fits: bool)
        requires
            0 < desc@.frame_bytes() <= usize::MAX,
            channel < desc@.channels,
        ensures
            fits == (forall|frame: int|
                0 <= frame < frames_in(payload@, desc@) ==> {
                    let len = (#[trigger] sample_at(payload@, desc@, frame, channel as int)).len();
                    len == 0 || len == 2 || len == 3
                }),
    {
        let width = desc.bytes_per_sample();
        let size = desc.bytes_per_frame();
        let len = payload.len();
        proof {
            assert(channel * width + width <= size) by (nonlinear_arith)
                requires
                    channel + 1 <= desc@.channels,
                    size == desc@.channels * width,
                    width >= 0,
            ;
        }
        let mut start: usize = channel * width;
        let mut done: bool = false;
        let ghost mut n: int = 0;
        while start < len && !done
            invariant
                size == desc@.frame_bytes(),
                width == desc@.sample_bytes(),
                len == payload@.len(),
                size > 0,
                channel < desc@.channels,
                channel * width + width <= size,
                n >= 0,
                !done ==> start == n * size + channel * width,
                done ==> len <= n * size + channel * width,
                forall|frame: int|
                    0 <= frame < n ==> {
                        let len = (#[trigger] sample_at(
                            payload@,
                            desc@,
                            frame,
                            channel as int,
                        )).len();
                        len == 0 || len == 2 || len == 3
                    },
            decreases len - start, (if done { 0int } else { 1int }),
        {
            let found: usize = if len - start < width {
                len - start
            } else {
                width
            };
            proof {
                lemma_frames_in(payload@, desc@, n as nat);
                assert(0 <= channel * width) by (nonlinear_arith);
                assert(found == sample_at(payload@, desc@, n, channel as int).len());
                assert((n + 1) * size == n * size + size) by (nonlinear_arith);
            }
            if found != 0 && found != 2 && found != 3 {
                return false;
            }
            if len - start <= size {
                done = true;
            } else {
                start = start + size;
            }
            proof {
                n = n + 1;
            }
        }
        proof {
            assert forall|frame: int| n <= frame implies (#[trigger] sample_at(
                payload@,
                desc@,
                frame,
                channel as int,
            )).len() == 0 by {
                assert(frame * size >= n * size) by (nonlinear_arith)
                    requires
                        frame >= n,
                        size > 0,
                ;
            }
        }
        true
    }

    /// Whether a packet can be inserted: it is no RTP packet, and is left out,
    /// or its samples can all be stored.
    pub fn accepts(
        &self,
        rtp_packet: &[u8],
        desc: &RxDescriptor,
        matrix: &OutputMatrix,
    ) -> (accepted: bool)
        requires
            matrix.wf(),
        ensures
            accepted == (is_rtp(rtp_packet@) ==> self.can_store(
                payload_of(rtp_packet@),
                desc@,
                matrix@,
            )),
    {
        let rtp = match read_rtp(rtp_packet) {
            Some(it) => it,
            None => {
                return true;
            },
        };
        match desc.channels.checked_mul(desc.bytes_per_sample()) {
            Some(size) => {
                if size == 0 {
                    return false;
                }
            },
            None => {
                return false;
            },
        }
        proof {
            matrix.lemma_ports_exist();
        }
        let channels = self.format.audio_format.frame_format.channels;
        let mut port: usize = 0;
        while port < matrix.port_count()
            invariant
                matrix.wf(),
                is_rtp(rtp_packet@),
                channels == self.channels(),
                port <= matrix@.channels,
                forall|p: usize|
                    p < port && channel_on(matrix@.routes, desc@.id, p) is Some ==> p
                        < self.channels(),
            decreases matrix@.channels - port,
        {
            match matrix.get_channel(port) {
                Some(route) => {
                    if route.0.transceiver_id == desc.id && port >= channels {
                        assert(channel_on(matrix@.routes, desc@.id, port) is Some);
                        return false;
                    }
                },
                None => {},
            }
            port = port + 1;
        }
        let payload = rtp.payload.as_slice();
        let mut channel: usize = 0;
        while channel < desc.channels
            invariant
                matrix.wf(),
                is_rtp(rtp_packet@),
                0 < desc@.frame_bytes() <= usize::MAX,
                channel <= desc@.channels,
                payload@ == payload_of(rtp_packet@),
                forall|frame: int, c: usize|
                    0 <= frame < frames_in(payload@, desc@) && c < channel && ports_of(
                        matrix@.routes,
                        Channel { transceiver_id: desc@.id, channel_nr: c },
                        matrix@.channels as nat,
                    ).len() > 0 ==> {
                        let len = (#[trigger] sample_at(payload@, desc@, frame, c as int)).len();
                        len == 0 || len == 2 || len == 3
                    },
            decreases desc@.channels - channel,
        {
            let receiver_channel = Channel::new(desc.id, channel);
            if matrix.get_outputs(&receiver_channel).is_some() {
                if !AudioBuffer::channel_fits(payload, desc, channel) {
                    proof {
                        let frame = choose|frame: int|
                            0 <= frame < frames_in(payload@, desc@) && {
                                let len = (#[trigger] sample_at(
                                    payload@,
                                    desc@,
                                    frame,
                                    channel as int,
                                )).len();
                                !(len == 0 || len == 2 || len == 3)
                            };
                        assert(sample_at(payload@, desc@, frame, channel as int).len() != 0);
                    }
                    return false;
                }
            }
            channel = channel + 1;
        }
        true
    }

    /// Marks each slot of the ports that play out a receiver as disabled and
    /// muted.
    pub fn disable_channels(&self, memory: &mut [u8], desc: &RxDescriptor, matrix: &OutputMatrix)
        requires
            self.usable(),
            old(memory)@.len() == 4 * self.slots(),
            matrix.wf(),
            forall|port: usize|
                channel_on(matrix@.routes, desc@.id, port) is Some ==> port < self.channels(),
        ensures
            final(memory)@ == self.switched_off(old(memory)@, desc@, matrix@.routes),
    {
        let channels = self.format.audio_format.frame_format.channels;
        let frames = self.format.frames_per_buffer();
        let len = memory.len();
        let ghost before = memory@;
        let mut channel: usize = 0;
        while channel < desc.channels
            invariant
                self.usable(),
                matrix.wf(),
                channels == self.channels(),
                frames == self.frames(),
                len == 4 * self.slots(),
                memory@.len() == len,
                before.len() == len,
                channel <= desc@.channels,
                forall|port: usize|
                    channel_on(matrix@.routes, desc@.id, port) is Some ==> port
                        < self.channels(),
                forall|i: int|
                    0 <= i < len ==> #[trigger] memory@[i] == self.switched_byte(
                        before,
                        desc@.id,
                        matrix@.routes,
                        channel as nat,
                        i,
                    ),
            decreases desc@.channels - channel,
        {
            let receiver_channel = Channel::new(desc.id, channel);
            proof {
                matrix.lemma_ports_exist();
            }
            match matrix.get_outputs(&receiver_channel) {
                Some(outputs) => {
                    self.disable_outputs(
                        memory,
                        outputs,
                        frames,
                        desc.id,
                        channel,
                        Ghost(before),
                        Ghost(matrix@),
                    );
                },
                None => {},
            }
            proof {
                assert forall|port: usize|
                    ports_of(matrix@.routes, receiver_channel, matrix@.channels as nat).len()
                        == 0 implies #[trigger] channel_on(matrix@.routes, desc@.id, port) != Some(
                    channel,
                ) by {
                    lemma_lookups_agree(
                        matrix@.routes,
                        receiver_channel,
                        matrix@.channels as nat,
                        port,
                    );
                }
            }
            channel = channel + 1;
        }
        assert(memory@ =~= self.switched_off(before, desc@, matrix@.routes));
    }

    fn disable_outputs(
        &self,
        memory: &mut [u8],
        outputs: &Vec<usize>,
        frames: usize,
        receiver: usize,
        channel: usize,
        Ghost(before): Ghost<Seq<u8>>,
        Ghost(matrix): Ghost<MatrixModel>,
    )
        requires
            self.usable(),
            frames == self.frames(),
            old(memory)@.len() == 4 * self.slots(),
            before.len() == 4 * self.slots(),
            outputs@ == ports_of(
                matrix.routes,
                Channel { transceiver_id: receiver, channel_nr: channel },
                matrix.channels as nat,
            ),
            forall|port: usize|
                #[trigger] matrix.routes.contains_key(port) ==> port < matrix.channels,
            forall|port: usize|
                channel_on(matrix.routes, receiver, port) is Some ==> port < self.channels(),
            forall|i: int|
                0 <= i < old(memory)@.len() ==> #[trigger] old(memory)@[i] == self.switched_byte(
                    before,
                    receiver,
                    matrix.routes,
                    channel as nat,
                    i,
                ),
        ensures
            final(memory)@.len() == old(memory)@.len(),
            forall|i: int|
                0 <= i < final(memory)@.len() ==> #[trigger] final(memory)@[i]
                    == self.switched_byte(
                    before,
                    receiver,
                    matrix.routes,
                    channel as nat + 1,
                    i,
                ),
    {
        let ghost ch = Channel { transceiver_id: receiver, channel_nr: channel };
        let channels = self.format.audio_format.frame_format.channels;
        let len = memory.len();
        let mut k: usize = 0;
        while k < outputs.len()
            invariant
                k <= outputs@.len(),
                self.usable(),
                frames == self.frames(),
                channels == self.channels(),
                len == 4 * self.slots(),
                memory@.len() == len,
                before.len() == len,
                ch == (Channel { transceiver_id: receiver, channel_nr: channel }),
                outputs@ == ports_of(matrix.routes, ch, matrix.channels as nat),
                forall|port: usize|
                    channel_on(matrix.routes, receiver, port) is Some ==> port < self.channels(),
                forall|i: int|
                    0 <= i < len ==> #[trigger] memory@[i] == self.byte_in_progress(
                        before,
                        receiver,
                        matrix.routes,
                        channel as nat,
                        outputs@.take(k as int),
                        0,
                        0,
                        i,
                    ),
            decreases outputs@.len() - k,
        {
            let output = outputs[k];
            let ghost done = outputs@.take(k as int);
            proof {
                lemma_lookups_agree(matrix.routes, ch, matrix.channels as nat, output);
                assert(outputs@.contains(output));
                assert(channel_on(matrix.routes, receiver, output) == Some(channel));
                assert(!done.contains(output)) by {
                    if done.contains(output) {
                        let j = choose|j: int| 0 <= j < done.len() && done[j] == output;
                        assert(outputs@[j] < outputs@[k as int]);
                    }
                }
            }
            let mut frame: usize = 0;
            while frame < frames
                invariant
                    frame <= frames,
                    self.usable(),
                    frames == self.frames(),
                    channels == self.channels(),
                    output < channels,
                    !done.contains(output),
                    channel_on(matrix.routes, receiver, output) == Some(channel),
                    len == 4 * self.slots(),
                    memory@.len() == len,
                    before.len() == len,
                    forall|i: int|
                        0 <= i < len ==> #[trigger] memory@[i] == self.byte_in_progress(
                            before,
                            receiver,
                            matrix.routes,
                            channel as nat,
                            done,
                            output,
                            frame as nat,
                            i,
                        ),
                decreases frames - frame,
            {
                proof {
                    lemma_index(frame as int, output as int, channels as int, frames as int);
                }
                let index: usize = frame * channels + output;
                let at: usize = 4 * index;
                let mut metadata: u8 = memory[at];
                metadata.set_disabled(true);
                metadata.set_muted(true);
                memory[at] = metadata;
                proof {
                    assert forall|i: int| 0 <= i < len implies #[trigger] memory@[i]
                        == self.byte_in_progress(
                        before,
                        receiver,
                        matrix.routes,
                        channel as nat,
                        done,
                        output,
                        frame as nat + 1,
                        i,
                    ) by {
                        lemma_split_index(i / 4, channels as int, frames as int);
                    }
                }
                frame = frame + 1;
            }
            proof {
                let now_done = outputs@.take(k + 1);
                assert(now_done =~= done.push(output));
                assert(now_done[k as int] == output);
                assert forall|i: int| 0 <= i < len implies #[trigger] memory@[i]
                    == self.byte_in_progress(
                    before,
                    receiver,
                    matrix.routes,
                    channel as nat,
                    now_done,
                    0,
                    0,
                    i,
                ) by {
                    lemma_split_index(i / 4, channels as int, frames as int);
                    let port = ((i / 4) % self.channels() as int) as usize;
                    if done.contains(port) {
                        let j = choose|j: int| 0 <= j < done.len() && done[j] == port;
                        assert(now_done[j] == port);
                    }
                    if now_done.contains(port) && port != output {
                        let j = choose|j: int| 0 <= j < now_done.len() && now_done[j] == port;
                        assert(done[j] == port);
                    }
                }
            }
            k = k + 1;
        }
        proof {
            assert(outputs@.take(k as int) =~= outputs@);
            assert forall|i: int| 0 <= i < len implies #[trigger] memory@[i]
                == self.switched_byte(
                before,
                receiver,
                matrix.routes,
                channel as nat + 1,
                i,
            ) by {
                let port = ((i / 4) % self.channels() as int) as usize;
                lemma_lookups_agree(matrix.routes, ch, matrix.channels as nat, port);
            }
        }
    }

    /// Reads a channel out of the ring, from a position on the media clock
    /// onwards. Tells the sequence number at which the reading ended and the
    /// first position whose sample was not the one that was due.
    pub fn read<S>(
        &self,
        memory: &[u8],
        numbers: &[u16],
        playout_timestamp: MediaClockTimestamp,
        seq: Option<u16>,
        channel: usize,
        output_buffer: &mut [S],
    ) -> (progress: (Option<u16>, Option<MediaClockTimestamp>)) where
        SampleFormat: SampleReader<S>,

        requires
            self.usable(),
            self.lies_in(memory@, numbers@),
            channel < self.channels(),
            forall|bytes: Seq<u8>|
                bytes.len() == 4 ==> #[trigger] <SampleFormat as SampleReader<S>>::readable(
                    &SampleFormat::Internal,
                    bytes,
                ),
        ensures
            final(output_buffer)@.len() == old(output_buffer)@.len(),
            forall|i: int|
                0 <= i < final(output_buffer)@.len() ==> #[trigger] final(output_buffer)@[i]
                    == self.played::<S>(
                    memory@,
                    numbers@,
                    playout_timestamp,
                    seq,
                    channel as nat,
                    i as nat,
                ),
            ({
                let end = self.progress(
                    memory@,
                    numbers@,
                    playout_timestamp,
                    seq,
                    channel as nat,
                    old(output_buffer)@.len(),
                );
                progress == (end.sequence_number, end.underrun)
            }),
    {
        let channels = self.format.audio_format.frame_format.channels;
        let sample_format = self.format.audio_format.frame_format.sample_format;
        let frames_per_buffer = self.format.frames_per_buffer();
        let len = output_buffer.len();
        let slots = numbers.len();
        let size = memory.len();
        let mut frame: usize = (playout_timestamp.timestamp as u64 % frames_per_buffer as u64)
            as usize;
        let mut underrun_timestamp: Option<MediaClockTimestamp> = None;
        let mut sequence_number: Option<u16> = seq;
        let mut i: usize = 0;
        proof {
            vstd::arithmetic::div_mod::lemma_small_mod(
                self.frame_of(playout_timestamp.timestamp),
                self.frames(),
            );
        }
        while i < len
            invariant
                i <= len,
                len == output_buffer@.len(),
                len == old(output_buffer)@.len(),
                self.usable(),
                self.lies_in(memory@, numbers@),
                slots == self.slots(),
                size == memory@.len(),
                channels == self.channels(),
                channel < channels,
                sample_format == SampleFormat::Internal,
                frames_per_buffer == self.frames(),
                frame == (self.frame_of(playout_timestamp.timestamp) + i as nat) % self.frames(),
                forall|bytes: Seq<u8>|
                    bytes.len() == 4 ==> #[trigger] <SampleFormat as SampleReader<S>>::readable(
                        &SampleFormat::Internal,
                        bytes,
                    ),
                ({
                    let now = self.progress(
                        memory@,
                        numbers@,
                        playout_timestamp,
                        seq,
                        channel as nat,
                        i as nat,
                    );
                    &&& now.sequence_number == sequence_number
                    &&& now.underrun == underrun_timestamp
                }),
                forall|k: int|
                    0 <= k < i ==> #[trigger] output_buffer@[k] == self.played::<S>(
                        memory@,
                        numbers@,
                        playout_timestamp,
                        seq,
                        channel as nat,
                        k as nat,
                    ),
            decreases len - i,
        {
            proof {
                lemma_next_frame(
                    (self.frame_of(playout_timestamp.timestamp) + i) as int,
                    self.frames() as int,
                );
                lemma_index(
                    frame as int,
                    channel as int,
                    channels as int,
                    frames_per_buffer as int,
                );
            }
            let index: usize = frame * channels + channel;
            let start: usize = 4 * index;
            let buf = &memory[start..start + 4];
            assert(buf@ == slot(memory@, index as int));
            let number = numbers[index];
            let disabled = buf[0].is_disabled();
            let underrun = match sequence_number {
                Some(s) => !(s == number || precedes(s, number)),
                None => false,
            };
            let muted = disabled || underrun || buf[0].is_muted();
            if underrun {
                if !disabled && underrun_timestamp.is_none() {
                    underrun_timestamp = Some(playout_timestamp.later_by_frames(i));
                }
                sequence_number = if disabled {
                    None
                } else {
                    match sequence_number {
                        Some(s) => Some(sequence_number_after(s)),
                        None => None,
                    }
                };
            } else {
                sequence_number = Some(number);
            }
            let sample: S = if muted {
                sample_format.silent_sample()
            } else {
                match sample_format.read_sample(buf) {
                    Some(value) => value,
                    None => sample_format.silent_sample(),
                }
            };
            output_buffer[i] = sample;
            frame = if frame + 1 == frames_per_buffer {
                0
            } else {
                frame + 1
            };
            i = i + 1;
        }
        (sequence_number, underrun_timestamp)
    }

    /// A slot in which nothing was received yet: disabled and muted.
    pub fn init_internal() -> (bytes: [u8; 4])
        ensures
            bytes@ == seq![0x28u8, 0u8, 0u8, 0u8],
    {
        [0x28, 0, 0, 0]
    }

    /// Prepares memory for a ring in which nothing was received yet.
    pub fn clear(&self, memory: &mut [u8])
        requires
            self.usable(),
            old(memory)@.len() == 4 * self.slots(),
        ensures
            final(memory)@.len() == old(memory)@.len(),
            forall|index: int|
                0 <= index < self.slots() ==> #[trigger] slot(final(memory)@, index)
                    == seq![0x28u8, 0u8, 0u8, 0u8],
    {
        let len = memory.len();
        let silence = AudioBuffer::init_internal();
        let mut start: usize = 0;
        while start < len
            invariant
                start <= len,
                start % 4 == 0,
                len % 4 == 0,
                len == memory@.len(),
                silence@ == seq![0x28u8, 0u8, 0u8, 0u8],
                forall|i: int|
                    0 <= i < start ==> #[trigger] memory@[i] == (if i % 4 == 0 {
                        0x28u8
                    } else {
                        0u8
                    }),
            decreases len - start,
        {
            memory[start] = silence[0];
            memory[start + 1] = silence[1];
            memory[start + 2] = silence[2];
            memory[start + 3] = silence[3];
            start = start + 4;
        }
        proof {
            assert forall|index: int| 0 <= index < self.slots() implies #[trigger] slot(
                memory@,
                index,
            ) == seq![0x28u8, 0u8, 0u8, 0u8] by {
                assert(slot(memory@, index) =~= seq![0x28u8, 0u8, 0u8, 0u8]);
            }
        }
    }

    /// A byte of the memory while the ports of a channel are switched off:
    /// `ports` are done, and `port` is done in the frames below `frames`.
    spec fn byte_in_progress(
        self,
        memory: Seq<u8>,
        receiver: usize,
        routes: Routes,
        channel: nat,
        ports: Seq<usize>,
        port: usize,
        frames: nat,
        i: int,
    ) -> u8 {
        let here = ((i / 4) % self.channels() as int) as usize;
        let frame = (i / 4) / self.channels() as int;
        if i % 4 == 0 && (ports.contains(here) || (here == port && frame < frames)) {
            with_flag(with_flag(memory[i], 0x08, true), 0x20, true)
        } else {
            self.switched_byte(memory, receiver, routes, channel, i)
        }
    }
}

/// Creates a buffer of a format in memory of its size: a ring in which
/// nothing was received yet.
pub fn create_audio_buffer(format: BufferFormat, memory: &mut [u8]) -> (buffer: AudioBuffer)
    requires
        (AudioBuffer { format }).usable(),
        old(memory)@.len() == 4 * (AudioBuffer { format }).slots(),
    ensures
        buffer.format == format,
        final(memory)@.len() == old(memory)@.len(),
        forall|index: int|
            0 <= index < buffer.slots() ==> #[trigger] slot(final(memory)@, index)
                == seq![0x28u8, 0u8, 0u8, 0u8],
{
    let buffer = AudioBuffer { format };
    buffer.clear(memory);
    buffer
}

/// The bytes that a buffer takes in shared memory: its slots, and behind them
/// a sequence number of two bytes for each slot.
pub fn shared_memory_size(format: BufferFormat) -> (bytes: usize)
    requires
        (AudioBuffer { format }).usable(),
        6 * (AudioBuffer { format }).slots() <= usize::MAX,
    ensures
        bytes == 6 * (AudioBuffer { format }).slots(),
{
    let channels = format.audio_format.frame_format.channels;
    let frames = format.frames_per_buffer();
    let slots: usize = frames * channels;
    6 * slots
}

/// The bytes of the slots of a buffer that takes that many bytes in shared
/// memory.
pub fn slot_bytes(shared_memory_size: usize) -> (bytes: usize)
    ensures
        bytes == shared_memory_size / 6 * 4,
{
    shared_memory_size / 6 * 4
}

/// Opens a buffer: it has the format of its configuration and the length of
/// the memory that was found.
pub fn open_audio_buffer(buffer_config: &BufferConfig, buffer_len: usize) -> (buffer: AudioBuffer)
    ensures
        buffer.format.buffer_len == buffer_len,
        buffer.format.audio_format == buffer_config.format.audio_format,
{
    let audio_format = buffer_config.format.audio_format;
    AudioBuffer { format: BufferFormat { buffer_len, audio_format } }
}

/// Opens the input and the output buffer of an audio system.
pub fn open_shared_memory_buffers(
    mem_conf: &AudioSystemConfig,
    input_len: usize,
    output_len: usize,
) -> (buffers: (AudioBuffer, AudioBuffer))
    ensures
        buffers.0.format.buffer_len == input_len,
        buffers.0.format.audio_format == mem_conf.input_buffer.format.audio_format,
        buffers.1.format.buffer_len == output_len,
        buffers.1.format.audio_format == mem_conf.output_buffer.format.audio_format,
{
    let input_buffer = open_audio_buffer(&mem_conf.input_buffer, input_len);
    let output_buffer = open_audio_buffer(&mem_conf.output_buffer, output_len);
    (input_buffer, output_buffer)
}

/// The format of a buffer of `frames` frames of samples in the internal format.
pub open spec fn internal_buffer_format(
    channels: usize,
    sample_rate: usize,
    frames: usize,
) -> BufferFormat {
    BufferFormat {
        buffer_len: (channels * frames * 4) as usize,
        audio_format: AudioFormat {
            sample_rate,
            frame_format: FrameFormat { channels, sample_format: SampleFormat::Internal },
        },
    }
}

/// The formats of the input and the output buffer of an audio system, for
/// `frames` frames each: those that are due within four times the link offset.
pub fn shared_memory_formats(
    inputs: usize,
    outputs: usize,
    sample_rate: usize,
    frames: usize,
) -> (formats: (BufferFormat, BufferFormat))
    requires
        inputs * frames * 4 <= usize::MAX,
        outputs * frames * 4 <= usize::MAX,
    ensures
        formats.0 == internal_buffer_format(inputs, sample_rate, frames),
        formats.1 == internal_buffer_format(outputs, sample_rate, frames),
{
    proof {
        assert(0 <= inputs * frames) by (nonlinear_arith);
        assert(0 <= outputs * frames) by (nonlinear_arith);
    }
    let input_frame_format = FrameFormat {
        channels: inputs,
        sample_format: SampleFormat::Internal,
    };
    let output_frame_format = FrameFormat {
        channels: outputs,
        sample_format: SampleFormat::Internal,
    };
    let input_audio_format = AudioFormat { sample_rate, frame_format: input_frame_format };
    let output_audio_format = AudioFormat { sample_rate, frame_format: output_frame_format };
    (
        BufferFormat::for_rtp_playout_buffer(frames, input_audio_format),
        BufferFormat::for_rtp_playout_buffer(frames, output_audio_format),
    )
}

/// What an audio system is told of its buffers, once they were created under
/// the given addresses.
pub fn audio_system_config(
    formats: (BufferFormat, BufferFormat),
    input_address: String,
    output_address: String,
) -> (config: AudioSystemConfig)
    ensures
        config.input_buffer.format == formats.0,
        config.input_buffer.address@ == input_address@,
        config.output_buffer.format == formats.1,
        config.output_buffer.address@ == output_address@,
{
    AudioSystemConfig {
        input_buffer: BufferConfig { format: formats.0, address: input_address },
        output_buffer: BufferConfig { format: formats.1, address: output_address },
    }
}

/// A buffer that is created for at least one channel and one frame is usable,
/// and holds that many frames.
pub proof fn lemma_created_buffer_is_usable(channels: usize, sample_rate: usize, frames: usize)
    requires
        channels > 0,
        frames > 0,
        channels * frames * 4 <= usize::MAX,
    ensures
        ({
            let buffer = AudioBuffer {
                format: internal_buffer_format(channels, sample_rate, frames),
            };
            &&& buffer.usable()
            &&& buffer.frames() == frames
            &&& buffer.format.buffer_len == 4 * buffer.slots()
        }),
{
    let format = internal_buffer_format(channels, sample_rate, frames);
    assert(channels * 4 <= channels * frames * 4) by (nonlinear_arith)
        requires
            frames > 0,
    ;
    assert(channels * frames * 4 == (channels * 4) * frames) by (nonlinear_arith);
    vstd::arithmetic::div_mod::lemma_div_multiples_vanish(frames as int, channels * 4);
    assert(frames * channels == channels * frames) by (nonlinear_arith);
}

proof fn lemma_same_frame(start: int, a: int, b: int, frames: int)
    requires
        0 <= a < frames,
        0 <= b < frames,
        (start + a) % frames == (start + b) % frames,
    ensures
        a == b,
{
    lemma_fundamental_div_mod(start + a, frames);
    lemma_fundamental_div_mod(start + b, frames);
    let p = (start + a) / frames;
    let q = (start + b) / frames;
    assert(a - b == frames * (p - q)) by (nonlinear_arith)
        requires
            start + a == frames * p + (start + a) % frames,
            start + b == frames * q + (start + b) % frames,
            (start + a) % frames == (start + b) % frames,
    ;
    assert(p == q) by (nonlinear_arith)
        requires
            a - b == frames * (p - q),
            -frames < a - b < frames,
    ;
}

/// In a ring that is at least as long as the packet, the slot of a frame
/// holds what the packet has for it.
proof fn lemma_slot_after_insert(
    arrival: Arrival,
    before: Seq<u8>,
    number_before: u16,
    ring: nat,
    channel: usize,
    i: nat,
    n: nat,
)
    requires
        i < ring,
        n <= ring,
        sample_at(arrival.payload, arrival.desc, i as int, channel as int).len() > 0,
    ensures
        ({
            let frame = (arrival.start + i) % ring;
            &&& arrival.slot_after(before, ring, frame, channel, n) == (if i < n {
                internal_bytes(
                    sample_at(arrival.payload, arrival.desc, i as int, channel as int),
                    before,
                )
            } else {
                before
            })
            &&& arrival.number_after(number_before, ring, frame, channel, n) == (if i < n {
                arrival.number
            } else {
                number_before
            })
        }),
    decreases n,
{
    if n > 0 {
        lemma_slot_after_insert(arrival, before, number_before, ring, channel, i, (n - 1) as nat);
        if n - 1 != i && (arrival.start + (n - 1) as nat) % ring == (arrival.start + i) % ring {
            lemma_same_frame(arrival.start as int, n - 1, i as int, ring as int);
        }
    }
}

/// What is read back is what was received: a packet that fits into the ring
/// is played out, on each port to which a channel is routed, sample by sample
/// from its playout position on, without an underrun, whether reading starts
/// there, goes on from the packet before, or is within the packet already.
pub proof fn lemma_read_returns_what_was_inserted(
    buffer: AudioBuffer,
    before: (Seq<u8>, Seq<u16>),
    after: (Seq<u8>, Seq<u16>),
    packet: Seq<u8>,
    desc: DescriptorModel,
    routes: Routes,
    port: usize,
    position: MediaClockTimestamp,
    sequence_number: Option<u16>,
    i: nat,
)
    requires
        buffer.usable(),
        buffer.lies_in(before.0, before.1),
        buffer.lies_in(after.0, after.1),
        is_rtp(packet),
        desc.frame_bytes() > 0,
        forall|index: int|
            0 <= index < buffer.slots() ==> (#[trigger] slot(after.0, index), after.1[index])
                == buffer.received(
                before.0,
                before.1,
                buffer.arrival(packet, desc),
                routes,
                frames_in(payload_of(packet), desc),
                index,
            ),
        frames_in(payload_of(packet), desc) <= buffer.frames(),
        port < buffer.channels(),
        channel_on(routes, desc.id, port) is Some,
        forall|frame: int|
            0 <= frame < frames_in(payload_of(packet), desc) ==> {
                let len = (#[trigger] sample_at(
                    payload_of(packet),
                    desc,
                    frame,
                    channel_on(routes, desc.id, port)->0 as int,
                )).len();
                len == 2 || len == 3
            },
        position.timestamp == buffer.playout_position(header_timestamp(packet) as u32, desc),
        sequence_number matches Some(current) ==> {
            ||| header_sequence_number(packet) == current
            ||| header_sequence_number(packet) == next_sequence_number(current)
        },
        i <= frames_in(payload_of(packet), desc),
    ensures
        buffer.progress(
            after.0,
            after.1,
            position,
            sequence_number,
            port as nat,
            i,
        ).underrun is None,
        i > 0 ==> buffer.progress(
            after.0,
            after.1,
            position,
            sequence_number,
            port as nat,
            i,
        ).sequence_number == Some(header_sequence_number(packet) as u16),
        i < frames_in(payload_of(packet), desc) ==> {
            let sample = sample_at(
                payload_of(packet),
                desc,
                i as int,
                channel_on(routes, desc.id, port)->0 as int,
            );
            let format = if sample.len() == 2 {
                SampleFormat::L16
            } else {
                SampleFormat::L24
            };
            &&& !buffer.silent(after.0, after.1, position, sequence_number, port as nat, i)
            &&& Some(
                buffer.played::<i32>(
                    after.0,
                    after.1,
                    position,
                    sequence_number,
                    port as nat,
                    i,
                ) as int,
            ) == format.value_in(sample)
            &&& Some(
                buffer.played::<SampleRatio>(
                    after.0,
                    after.1,
                    position,
                    sequence_number,
                    port as nat,
                    i,
                ),
            ) == format.ratio_in(sample)
        },
    decreases i,
{
    let n = frames_in(payload_of(packet), desc);
    let arrival = buffer.arrival(packet, desc);
    let channel = channel_on(routes, desc.id, port)->0;
    if i > 0 {
        lemma_read_returns_what_was_inserted(
            buffer,
            before,
            after,
            packet,
            desc,
            routes,
            port,
            position,
            sequence_number,
            (i - 1) as nat,
        );
        lemma_slot_read_back(buffer, before, after, arrival, routes, port, n, (i - 1) as nat);
        lemma_internal_format_keeps_value(
            sample_at(arrival.payload, desc, i - 1, channel as int),
            slot(
                before.0,
                buffer.read_index(position.timestamp, port as nat, (i - 1) as nat),
            ),
        );
    }
    if i < n {
        lemma_slot_read_back(buffer, before, after, arrival, routes, port, n, i);
        lemma_internal_format_keeps_value(
            sample_at(arrival.payload, desc, i as int, channel as int),
            slot(before.0, buffer.read_index(position.timestamp, port as nat, i)),
        );
    }
}

proof fn lemma_slot_read_back(
    buffer: AudioBuffer,
    before: (Seq<u8>, Seq<u16>),
    after: (Seq<u8>, Seq<u16>),
    arrival: Arrival,
    routes: Routes,
    port: usize,
    n: nat,
    i: nat,
)
    requires
        buffer.usable(),
        buffer.lies_in(before.0, before.1),
        buffer.lies_in(after.0, after.1),
        forall|index: int|
            0 <= index < buffer.slots() ==> (#[trigger] slot(after.0, index), after.1[index])
                == buffer.received(before.0, before.1, arrival, routes, n, index),
        n <= buffer.frames(),
        i < n,
        port < buffer.channels(),
        channel_on(routes, arrival.desc.id, port) is Some,
        sample_at(
            arrival.payload,
            arrival.desc,
            i as int,
            channel_on(routes, arrival.desc.id, port)->0 as int,
        ).len() > 0,
    ensures
        ({
            let index = buffer.slot_index((arrival.start + i) % buffer.frames(), port as nat);
            &&& 0 <= index < buffer.slots()
            &&& slot(before.0, index).len() == 4
            &&& slot(after.0, index) == internal_bytes(
                sample_at(
                    arrival.payload,
                    arrival.desc,
                    i as int,
                    channel_on(routes, arrival.desc.id, port)->0 as int,
                ),
                slot(before.0, index),
            )
            &&& after.1[index] == arrival.number
        }),
{
    let frame = (arrival.start + i) % buffer.frames();
    let index = buffer.slot_index(frame, port as nat);
    let channel = channel_on(routes, arrival.desc.id, port)->0;
    lemma_mod_bound((arrival.start + i) as int, buffer.frames() as int);
    lemma_index(frame as int, port as int, buffer.channels() as int, buffer.frames() as int);
    lemma_slot_after_insert(
        arrival,
        slot(before.0, index),
        before.1[index],
        buffer.frames(),
        channel,
        i,
        n,
    );
    assert((slot(after.0, index), after.1[index]) == buffer.received(
        before.0,
        before.1,
        arrival,
        routes,
        n,
        index,
    ));
}

/// Packets of whole frames can be stored: where the samples of a receiver have
/// two or three bytes, and what is routed goes to channels of the ring, there is
/// no payload of whole frames that is not accepted.
pub proof fn lemma_whole_frames_can_be_stored(
    buffer: AudioBuffer,
    payload: Seq<u8>,
    desc: DescriptorModel,
    matrix: MatrixModel,
)
    requires
        desc.sample_bytes() == 2 || desc.sample_bytes() == 3,
        0 < desc.frame_bytes() <= usize::MAX,
        payload.len() as int % desc.frame_bytes() as int == 0,
        forall|port: usize| #[trigger]
            matrix.routes.contains_key(port) ==> port < buffer.channels(),
    ensures
        buffer.can_store(payload, desc, matrix),
{
    let size = desc.frame_bytes() as int;
    let width = desc.sample_bytes() as int;
    let len = payload.len() as int;
    lemma_fundamental_div_mod(len, size);
    let whole = len / size;
    assert forall|frame: int, channel: usize| 0 <= frame < frames_in(payload, desc) implies ({
        let found = (#[trigger] sample_at(payload, desc, frame, channel as int)).len();
        found == 0 || found == 2 || found == 3
    }) by {
        lemma_frames_in(payload, desc, frame as nat);
        if channel < desc.channels {
            assert(frame * size + channel * width + width <= len) by (nonlinear_arith)
                requires
                    frame * size < len,
                    len == size * whole,
                    size == desc.channels * width,
                    channel + 1 <= desc.channels,
                    width > 0,
                    size > 0,
            ;
            assert(0 <= frame * size + channel * width) by (nonlinear_arith)
                requires
                    frame >= 0,
                    size > 0,
                    channel >= 0,
                    width > 0,
            ;
        }
    }
}

/// A packet changes nothing on the ports that play out something else than
/// its receiver.
pub proof fn lemma_insert_leaves_other_ports(
    buffer: AudioBuffer,
    memory: Seq<u8>,
    numbers: Seq<u16>,
    arrival: Arrival,
    routes: Routes,
    n: nat,
    index: int,
)
    requires
        channel_on(
            routes,
            arrival.desc.id,
            (index % buffer.channels() as int) as usize,
        ) is None,
    ensures
        buffer.received(memory, numbers, arrival, routes, n, index) == (
            slot(memory, index),
            numbers[index],
        ),
{
}

/// Once the channels of a receiver are switched off, the ports that played
/// them out are silent, whatever sequence number is expected.
pub proof fn lemma_disabled_ports_are_silent(
    buffer: AudioBuffer,
    memory: Seq<u8>,
    numbers: Seq<u16>,
    desc: DescriptorModel,
    routes: Routes,
    port: usize,
    position: MediaClockTimestamp,
    sequence_number: Option<u16>,
    i: nat,
)
    requires
        buffer.usable(),
        buffer.lies_in(memory, numbers),
        port < buffer.channels(),
        channel_on(routes, desc.id, port) matches Some(channel) && channel < desc.channels,
    ensures
        buffer.silent(
            buffer.switched_off(memory, desc, routes),
            numbers,
            position,
            sequence_number,
            port as nat,
            i,
        ),
{
    let frame = (buffer.frame_of(position.timestamp) + i) % buffer.frames();
    let index = buffer.slot_index(frame, port as nat);
    lemma_mod_bound(
        (buffer.frame_of(position.timestamp) + i) as int,
        buffer.frames() as int,
    );
    lemma_index(frame as int, port as int, buffer.channels() as int, buffer.frames() as int);
    let off = buffer.switched_off(memory, desc, routes);
    let byte = memory[4 * index];
    assert(slot(off, index)[0] == off[4 * index]);
    assert((((byte | 0x08u8) | 0x20u8) >> 3) & 1 == 1) by (bit_vector);
}

/// Of the frames of a packet that go to the same frame of the ring, the last
/// one stays.
proof fn lemma_last_write_stays(
    arrival: Arrival,
    before: Seq<u8>,
    number_before: u16,
    ring: nat,
    channel: usize,
    i: nat,
    n: nat,
)
    requires
        ring > 0,
        i < n <= i + ring,
        sample_at(arrival.payload, arrival.desc, i as int, channel as int).len() > 0,
    ensures
        ({
            let frame = (arrival.start + i) % ring;
            &&& arrival.slot_after(before, ring, frame, channel, n) == internal_bytes(
                sample_at(arrival.payload, arrival.desc, i as int, channel as int),
                arrival.slot_after(before, ring, frame, channel, i),
            )
            &&& arrival.number_after(number_before, ring, frame, channel, n) == arrival.number
        }),
    decreases n,
{
    if n > i + 1 {
        lemma_last_write_stays(arrival, before, number_before, ring, channel, i, (n - 1) as nat);
        if (arrival.start + (n - 1) as nat) % ring == (arrival.start + i) % ring {
            lemma_same_frame(arrival.start as int + i, n - 1 - i, 0, ring as int);
        }
    }
}

proof fn lemma_slot_keeps_its_size(
    arrival: Arrival,
    before: Seq<u8>,
    ring: nat,
    frame: nat,
    channel: usize,
    n: nat,
)
    requires
        before.len() == 4,
    ensures
        arrival.slot_after(before, ring, frame, channel, n).len() == 4,
    decreases n,
{
    if n > 0 {
        lemma_slot_keeps_its_size(arrival, before, ring, frame, channel, (n - 1) as nat);
    }
}

proof fn lemma_place_of_frame(timestamp: int, offset: int, half: int, ring: int, i: int)
    requires
        0 <= timestamp < 0x1_0000_0000,
        ring > 0,
    ensures
        ({
            let position = shifted(shifted(timestamp as u32, -offset), half);
            &&& position == (timestamp - offset + half) % 0x1_0000_0000
            &&& (position as int % ring + i) % ring == ((timestamp - offset + half) % 0x1_0000_0000
                + i) % ring
        }),
{
    let sum = timestamp - offset;
    vstd::arithmetic::div_mod::lemma_add_mod_noop_right(half, sum, 0x1_0000_0000);
    let position = (sum + half) % 0x1_0000_0000;
    vstd::arithmetic::div_mod::lemma_add_mod_noop_right(i, position, ring);
}

proof fn lemma_sample_within(payload: Seq<u8>, desc: DescriptorModel, i: int, channel: int)
    requires
        0 <= i,
        0 <= channel < desc.channels,
        desc.bit_depth / 8 == 2 || desc.bit_depth / 8 == 3,
        (i * desc.channels + channel + 1) * (desc.bit_depth / 8) <= payload.len(),
    ensures
        desc.frame_bytes() > 0,
        0 <= (i * desc.channels + channel) * (desc.bit_depth / 8),
        i < frames_in(payload, desc),
        sample_at(payload, desc, i, channel) == payload.subrange(
            (i * desc.channels + channel) * (desc.bit_depth / 8),
            (i * desc.channels + channel + 1) * (desc.bit_depth / 8),
        ),
{
    let width = (desc.bit_depth / 8) as int;
    let channels = desc.channels as int;
    let start = i * desc.frame_bytes() + channel * desc.sample_bytes();
    assert(start == (i * channels + channel) * width) by (nonlinear_arith)
        requires
            start == i * (channels * width) + channel * width,
    ;
    assert(start + width == (i * channels + channel + 1) * width) by (nonlinear_arith)
        requires
            start == (i * channels + channel) * width,
    ;
    assert(channels * width > 0) by (nonlinear_arith)
        requires
            channels > 0,
            width > 0,
    ;
    assert(0 <= i * (channels * width) <= start) by (nonlinear_arith)
        requires
            start == i * (channels * width) + channel * width,
            i >= 0,
            channel >= 0,
            channels > 0,
            width > 0,
    ;
    lemma_frames_in(payload, desc, i as nat);
}

/// Each sample of a packet is stored at its time. For a packet with the
/// timestamp `t`, whose receiver has the offset `o`, in a ring of `f` frames and
/// `l` bytes: the sample of its frame `i` and of a channel stands, on each port
/// to which the channel is routed, in the frame of the ring that comes `i`
/// frames after the position `t - o + l / 2` on the media clock. Beside it
/// stands the sequence number of the packet. Of a packet that has more frames
/// than the ring, this holds of the last ones, which overwrite the others.
pub proof fn lemma_packet_is_stored_at_its_time(
    buffer: AudioBuffer,
    memory: Seq<u8>,
    numbers: Seq<u16>,
    packet: Seq<u8>,
    desc: DescriptorModel,
    routes: Routes,
    port: usize,
    i: nat,
)
    requires
        buffer.usable(),
        buffer.lies_in(memory, numbers),
        port < buffer.channels(),
        routes.contains_key(port),
        routes[port].0.transceiver_id == desc.id,
        routes[port].0.channel_nr < desc.channels,
        desc.bit_depth / 8 == 2 || desc.bit_depth / 8 == 3,
        (i * desc.channels + routes[port].0.channel_nr + 1) * (desc.bit_depth / 8) <= payload_of(
            packet,
        ).len(),
        payload_of(packet).len() <= (i + buffer.frames()) * (desc.channels * (desc.bit_depth / 8)),
    ensures
        ({
            let t = header_timestamp(packet);
            let o = desc.rtp_offset;
            let l = buffer.format.buffer_len as int;
            let f = buffer.frames() as int;
            let width = (desc.bit_depth / 8) as int;
            let frame = ((t - o + l / 2) % 0x1_0000_0000 + i) % f;
            let index = frame * buffer.channels() + port;
            let sample = i * desc.channels + routes[port].0.channel_nr;
            let (stored, number) = buffer.received(
                memory,
                numbers,
                buffer.arrival(packet, desc),
                routes,
                frames_in(payload_of(packet), desc),
                index,
            );
            &&& 0 <= index < numbers.len()
            &&& stored.len() == 4
            &&& stored.skip(4 - width) == payload_of(packet).subrange(
                sample * width,
                (sample + 1) * width,
            )
            &&& stored[0] == (if width == 2 {
                0x40u8
            } else {
                0u8
            })
            &&& number == header_sequence_number(packet)
        }),
{
    let arrival = buffer.arrival(packet, desc);
    let payload = payload_of(packet);
    let n = frames_in(payload, desc);
    let f = buffer.frames();
    let channel = routes[port].0.channel_nr;
    let width = (desc.bit_depth / 8) as int;
    lemma_sample_within(payload, desc, i as int, channel as int);
    lemma_frames_in(payload, desc, i + f);
    lemma_place_of_frame(
        header_timestamp(packet),
        desc.rtp_offset as int,
        buffer.format.buffer_len as int / 2,
        f as int,
        i as int,
    );
    let frame = (arrival.start + i) % f;
    let index = buffer.slot_index(frame, port as nat);
    lemma_mod_bound((arrival.start + i) as int, f as int);
    lemma_index(frame as int, port as int, buffer.channels() as int, f as int);
    let sample = sample_at(payload, desc, i as int, channel as int);
    assert((i * desc.channels + channel + 1) * width == (i * desc.channels + channel) * width
        + width) by (nonlinear_arith);
    assert(sample.len() == width);
    lemma_last_write_stays(arrival, slot(memory, index), numbers[index], f, channel, i, n);
    lemma_slot_keeps_its_size(arrival, slot(memory, index), f, frame, channel, i);
    lemma_internal_format_layout(
        sample,
        arrival.slot_after(slot(memory, index), f, frame, channel, i),
    );
}

proof fn lemma_same_arrival(
    a: Arrival,
    b: Arrival,
    before: Seq<u8>,
    number_before: u16,
    ring: nat,
    frame: nat,
    channel: usize,
    n: nat,
)
    requires
        a.payload == b.payload,
        a.start == b.start,
        a.number == b.number,
        b.desc == (DescriptorModel { rtp_offset: b.desc.rtp_offset, ..a.desc }),
    ensures
        a.slot_after(before, ring, frame, channel, n) == b.slot_after(
            before,
            ring,
            frame,
            channel,
            n,
        ),
        a.number_after(number_before, ring, frame, channel, n) == b.number_after(
            number_before,
            ring,
            frame,
            channel,
            n,
        ),
    decreases n,
{
    if n > 0 {
        lemma_same_arrival(a, b, before, number_before, ring, frame, channel, (n - 1) as nat);
        assert(sample_at(a.payload, a.desc, n - 1, channel as int) == sample_at(
            b.payload,
            b.desc,
            n - 1,
            channel as int,
        ));
    }
}

/// The offset of a receiver is taken off the timestamps of its packets: a packet
/// whose timestamp is shifted by the offset is stored where the same packet with
/// the timestamp that is not shifted is stored for a receiver without an offset.
pub proof fn lemma_offset_is_taken_off(
    buffer: AudioBuffer,
    memory: Seq<u8>,
    numbers: Seq<u16>,
    packet: Seq<u8>,
    plain: Seq<u8>,
    desc: DescriptorModel,
    routes: Routes,
    index: int,
)
    requires
        buffer.usable(),
        payload_of(packet) == payload_of(plain),
        header_sequence_number(packet) == header_sequence_number(plain),
        header_timestamp(packet) == (header_timestamp(plain) + desc.rtp_offset) % 0x1_0000_0000,
    ensures
        ({
            let other = DescriptorModel { rtp_offset: 0, ..desc };
            buffer.received(
                memory,
                numbers,
                buffer.arrival(packet, desc),
                routes,
                frames_in(payload_of(packet), desc),
                index,
            ) == buffer.received(
                memory,
                numbers,
                buffer.arrival(plain, other),
                routes,
                frames_in(payload_of(plain), other),
                index,
            )
        }),
{
    let other = DescriptorModel { rtp_offset: 0, ..desc };
    let a = buffer.arrival(packet, desc);
    let b = buffer.arrival(plain, other);
    assert(shifted(header_timestamp(packet) as u32, -desc.rtp_offset) == header_timestamp(plain));
    assert(shifted(header_timestamp(plain) as u32, 0) == header_timestamp(plain));
    let port = (index % buffer.channels() as int) as usize;
    if routes.contains_key(port) {
        lemma_same_arrival(
            a,
            b,
            slot(memory, index),
            numbers[index],
            buffer.frames(),
            (index / buffer.channels() as int) as nat,
            routes[port].0.channel_nr,
            frames_in(payload_of(packet), desc),
        );
    }
}

/// The frame of the ring in which a frame of a packet is stored, for a packet
/// with the timestamp `t` and a receiver with the offset `o`.
pub open spec fn ring_frame(t: int, o: int, l: int, f: int, i: int) -> int {
    ((t - o + l / 2) % 0x1_0000_0000 + i) % f
}

/// Whatever a packet holds, it changes nothing in the frames of the ring to
/// which none of its frames belongs, and nothing on a port whose channel its
/// receiver does not have.
pub proof fn lemma_insert_leaves_other_frames(
    buffer: AudioBuffer,
    memory: Seq<u8>,
    numbers: Seq<u16>,
    packet: Seq<u8>,
    desc: DescriptorModel,
    routes: Routes,
    port: usize,
    frame: nat,
    n: nat,
)
    requires
        buffer.usable(),
        buffer.lies_in(memory, numbers),
        port < buffer.channels(),
        frame < buffer.frames(),
        ({
            ||| routes.contains_key(port) && routes[port].0.channel_nr >= desc.channels
            ||| forall|i: int|
                0 <= i < n ==> #[trigger] ring_frame(
                    header_timestamp(packet),
                    desc.rtp_offset as int,
                    buffer.format.buffer_len as int,
                    buffer.frames() as int,
                    i,
                ) != frame
        }),
    ensures
        ({
            let index = frame * buffer.channels() + port;
            &&& 0 <= index < numbers.len()
            &&& buffer.received(
                memory,
                numbers,
                buffer.arrival(packet, desc),
                routes,
                n,
                index as int,
            ) == (slot(memory, index as int), numbers[index as int])
        }),
    decreases n,
{
    lemma_index(
        frame as int,
        port as int,
        buffer.channels() as int,
        buffer.frames() as int,
    );
    if n > 0 {
        let i = n - 1;
        lemma_insert_leaves_other_frames(
            buffer,
            memory,
            numbers,
            packet,
            desc,
            routes,
            port,
            frame,
            i as nat,
        );
        lemma_place_of_frame(
            header_timestamp(packet),
            desc.rtp_offset as int,
            buffer.format.buffer_len as int / 2,
            buffer.frames() as int,
            i,
        );
        let place = ring_frame(
            header_timestamp(packet),
            desc.rtp_offset as int,
            buffer.format.buffer_len as int,
            buffer.frames() as int,
            i,
        );
        assert((buffer.arrival(packet, desc).start + i) % buffer.frames() as int == place);
    }
}

/// The samples of a payload are interleaved: each frame has one for each channel,
/// in their order, and each of them has as many bytes as the bit depth tells,
/// but for the last one, which has those that are left. There are as many frames
/// as the payload begins.
pub proof fn lemma_samples_are_interleaved(
    payload: Seq<u8>,
    desc: DescriptorModel,
    frame: int,
    channel: int,
)
    requires
        0 <= frame,
        0 <= channel,
        desc.channels * (desc.bit_depth / 8) > 0,
    ensures
        ({
            let width = (desc.bit_depth / 8) as int;
            let start = (frame * desc.channels + channel) * width;
            let sample = sample_at(payload, desc, frame, channel);
            &&& channel >= desc.channels || start >= payload.len() ==> sample.len() == 0
            &&& channel < desc.channels && start < payload.len() ==> {
                &&& sample.len() == (if start + width <= payload.len() {
                    width
                } else {
                    payload.len() - start
                })
                &&& forall|k: int| 0 <= k < sample.len() ==> sample[k] == payload[start + k]
            }
        }),
        frame * (desc.channels * (desc.bit_depth / 8)) < payload.len() <==> frame < frames_in(
            payload,
            desc,
        ),
{
    let width = (desc.bit_depth / 8) as int;
    let channels = desc.channels as int;
    let start = frame * desc.frame_bytes() + channel * desc.sample_bytes();
    assert(start == (frame * channels + channel) * width) by (nonlinear_arith)
        requires
            start == frame * (channels * width) + channel * width,
    ;
    assert(0 <= start) by (nonlinear_arith)
        requires
            start == frame * (channels * width) + channel * width,
            frame >= 0,
            channel >= 0,
            channels * width > 0,
            width >= 0,
    ;
    lemma_frames_in(payload, desc, frame as nat);
}

/// Reading a channel goes round the ring: the slot for the frame that comes `i`
/// frames after a position is that of the channel in the frame of the ring which
/// has the number of that frame, where the numbers begin anew after each round.
pub proof fn lemma_reading_goes_round(
    buffer: AudioBuffer,
    timestamp: u32,
    channel: nat,
    i: nat,
)
    requires
        buffer.usable(),
        channel < buffer.channels(),
    ensures
        buffer.read_index(timestamp, channel, i) == (timestamp + i) % buffer.frames() as int
            * buffer.channels() + channel,
        0 <= buffer.read_index(timestamp, channel, i) < buffer.slots(),
{
    let f = buffer.frames() as int;
    vstd::arithmetic::div_mod::lemma_add_mod_noop_right(i as int, timestamp as int, f);
    lemma_mod_bound(timestamp + i, f);
    lemma_index((timestamp + i) % f, channel as int, buffer.channels() as int, f);
}

/// A sample that is not due is not heard. Whenever a sequence number is expected
/// at a frame and the number beside the slot that is read is neither that one
/// nor the one after it, the sample for that frame is silent, whatever the slot
/// holds and on whichever side of the expected number the other one lies.
pub proof fn lemma_missed_samples_are_silent(
    buffer: AudioBuffer,
    memory: Seq<u8>,
    numbers: Seq<u16>,
    position: MediaClockTimestamp,
    sequence_number: Option<u16>,
    channel: nat,
    i: nat,
    expected: u16,
)
    requires
        buffer.usable(),
        buffer.lies_in(memory, numbers),
        channel < buffer.channels(),
        buffer.progress(
            memory,
            numbers,
            position,
            sequence_number,
            channel,
            i,
        ).sequence_number == Some(expected),
        ({
            let index = (position.timestamp + i) % buffer.frames() as int * buffer.channels()
                + channel;
            numbers[index] != expected && numbers[index] != (expected + 1) % 65536
        }),
    ensures
        buffer.played::<i32>(memory, numbers, position, sequence_number, channel, i) == 0,
        buffer.played::<SampleRatio>(
            memory,
            numbers,
            position,
            sequence_number,
            channel,
            i,
        ).numerator == 0,
{
    lemma_reading_goes_round(buffer, position.timestamp, channel, i);
}

impl AudioBuffer {
    /// Whether a sample is missing that is to be heard, `i` frames after a
    /// position: a sequence number is expected, the one beside the slot is
    /// neither that one nor the one after it, and the slot is not disabled.
    pub open spec fn lacks(
        self,
        memory: Seq<u8>,
        numbers: Seq<u16>,
        position: MediaClockTimestamp,
        sequence_number: Option<u16>,
        channel: nat,
        i: nat,
    ) -> bool {
        let index = (position.timestamp + i) % self.frames() as int * self.channels() + channel;
        &&& self.progress(
            memory,
            numbers,
            position,
            sequence_number,
            channel,
            i,
        ).sequence_number matches Some(expected) && numbers[index] != expected && numbers[index]
            != (expected + 1) % 65536
        &&& memory[4 * index] & 0x08 == 0
    }
}

/// Which number is expected. At the first frame it is the one that was given.
/// After a frame it is the number beside the slot, where that is the one that was
/// expected or the one after it, or where none was expected. Else the next number
/// is expected, as if the sample had been there, but none where the slot is
/// disabled.
pub proof fn lemma_which_number_is_expected(
    buffer: AudioBuffer,
    memory: Seq<u8>,
    numbers: Seq<u16>,
    position: MediaClockTimestamp,
    sequence_number: Option<u16>,
    channel: nat,
    i: nat,
)
    requires
        buffer.usable(),
        buffer.lies_in(memory, numbers),
        channel < buffer.channels(),
    ensures
        buffer.progress(
            memory,
            numbers,
            position,
            sequence_number,
            channel,
            0,
        ).sequence_number == sequence_number,
        ({
            let index = (position.timestamp + i) % buffer.frames() as int * buffer.channels()
                + channel;
            let expected = buffer.progress(
                memory,
                numbers,
                position,
                sequence_number,
                channel,
                i,
            ).sequence_number;
            let next = buffer.progress(
                memory,
                numbers,
                position,
                sequence_number,
                channel,
                i + 1,
            ).sequence_number;
            match expected {
                None => next == Some(numbers[index]),
                Some(e) => if numbers[index] == e || numbers[index] == (e + 1) % 65536 {
                    next == Some(numbers[index])
                } else if memory[4 * index] & 0x08 == 0 {
                    next matches Some(number) && number == (e + 1) % 65536
                } else {
                    next is None
                },
            }
        }),
{
    lemma_reading_goes_round(buffer, position.timestamp, channel, i);
    let index = buffer.read_index(position.timestamp, channel, i);
    assert(slot(memory, index)[0] == memory[4 * index]);
    lemma_metadata_bits(memory[4 * index]);
}

/// What is reported is the first underrun: there is one exactly where a sample
/// was missing that was to be heard, and it is the position of the first of
/// them.
pub proof fn lemma_first_underrun_is_reported(
    buffer: AudioBuffer,
    memory: Seq<u8>,
    numbers: Seq<u16>,
    position: MediaClockTimestamp,
    sequence_number: Option<u16>,
    channel: nat,
    n: nat,
)
    requires
        buffer.usable(),
        buffer.lies_in(memory, numbers),
        channel < buffer.channels(),
    ensures
        match buffer.progress(
            memory,
            numbers,
            position,
            sequence_number,
            channel,
            n,
        ).underrun {
            None => forall|k: nat|
                k < n ==> !#[trigger] buffer.lacks(
                    memory,
                    numbers,
                    position,
                    sequence_number,
                    channel,
                    k,
                ),
            Some(at) => exists|k: nat|
                k < n && #[trigger] buffer.lacks(
                    memory,
                    numbers,
                    position,
                    sequence_number,
                    channel,
                    k,
                ) && at.timestamp == (position.timestamp + k) % 0x1_0000_0000 && at.sample_rate
                    == position.sample_rate && forall|j: nat|
                    j < k ==> !#[trigger] buffer.lacks(
                        memory,
                        numbers,
                        position,
                        sequence_number,
                        channel,
                        j,
                    ),
        },
    decreases n,
{
    if n > 0 {
        let i = (n - 1) as nat;
        lemma_first_underrun_is_reported(
            buffer,
            memory,
            numbers,
            position,
            sequence_number,
            channel,
            i,
        );
        lemma_reading_goes_round(buffer, position.timestamp, channel, i);
        let index = buffer.read_index(position.timestamp, channel, i);
        assert(slot(memory, index)[0] == memory[4 * index]);
        lemma_metadata_bits(memory[4 * index]);
        let earlier = buffer.progress(memory, numbers, position, sequence_number, channel, i);
        let lacking = buffer.lacks(memory, numbers, position, sequence_number, channel, i);
        assert(lacking <==> AudioBuffer::missed(earlier.sequence_number, numbers[index])
            && !memory[4 * index].disabled());
        if earlier.underrun is None && lacking {
            assert(buffer.lacks(memory, numbers, position, sequence_number, channel, i));
        }
    }
}

/// After a loss nothing of an earlier pass over the ring is heard. Where a number
/// is expected, and the slots that are read from there on hold numbers that lie
/// before it, all of them are silent, the expected number goes on by one with each
/// frame, and an underrun is reported.
pub proof fn lemma_stale_samples_are_not_heard(
    buffer: AudioBuffer,
    memory: Seq<u8>,
    numbers: Seq<u16>,
    position: MediaClockTimestamp,
    sequence_number: Option<u16>,
    channel: nat,
    first: nat,
    n: nat,
    expected: u16,
)
    requires
        buffer.usable(),
        buffer.lies_in(memory, numbers),
        channel < buffer.channels(),
        n < 32767,
        buffer.progress(
            memory,
            numbers,
            position,
            sequence_number,
            channel,
            first,
        ).sequence_number == Some(expected),
        forall|k: nat|
            first <= k <= first + n ==> {
                let index = #[trigger] buffer.read_index(position.timestamp, channel, k);
                &&& memory[4 * index] & 0x08 == 0
                &&& 1 <= (expected - numbers[index]) % 65536 <= 32768
            },
    ensures
        buffer.played::<i32>(memory, numbers, position, sequence_number, channel, first + n) == 0,
        buffer.played::<SampleRatio>(
            memory,
            numbers,
            position,
            sequence_number,
            channel,
            first + n,
        ).numerator == 0,
        buffer.progress(
            memory,
            numbers,
            position,
            sequence_number,
            channel,
            first + n,
        ).sequence_number matches Some(number) && number == (expected + n) % 65536,
        buffer.progress(
            memory,
            numbers,
            position,
            sequence_number,
            channel,
            first + n + 1,
        ).underrun is Some,
    decreases n,
{
    let k = first + n;
    if n > 0 {
        let before = (n - 1) as nat;
        lemma_stale_samples_are_not_heard(
            buffer,
            memory,
            numbers,
            position,
            sequence_number,
            channel,
            first,
            before,
            expected,
        );
        lemma_reading_goes_round(buffer, position.timestamp, channel, (k - 1) as nat);
        lemma_which_number_is_expected(
            buffer,
            memory,
            numbers,
            position,
            sequence_number,
            channel,
            (k - 1) as nat,
        );
        let index = buffer.read_index(position.timestamp, channel, (k - 1) as nat);
        lemma_behind(expected, numbers[index], before);
    }
    lemma_reading_goes_round(buffer, position.timestamp, channel, k);
    let index = buffer.read_index(position.timestamp, channel, k);
    lemma_behind(expected, numbers[index], n);
    let now = buffer.progress(memory, numbers, position, sequence_number, channel, k);
    lemma_missed_samples_are_silent(
        buffer,
        memory,
        numbers,
        position,
        sequence_number,
        channel,
        k,
        now.sequence_number->0,
    );
    lemma_first_underrun_is_reported(
        buffer,
        memory,
        numbers,
        position,
        sequence_number,
        channel,
        k + 1,
    );
    assert(buffer.lacks(memory, numbers, position, sequence_number, channel, k));
}

proof fn lemma_behind(expected: u16, number: u16, n: nat)
    requires
        n < 32767,
        1 <= (expected - number) % 65536 <= 32768,
    ensures
        number != (expected + n) % 65536,
        number != (expected + n + 1) % 65536,
        ((expected + n) % 65536 + 1) % 65536 == (expected + n + 1) % 65536,
{
}

/// What is heard of a slot. Nothing where it is disabled, muted or consumed.
/// Else, where no sequence number is expected, or that beside the slot or the one
/// before it is, the linear sample at the end of the slot.
pub proof fn lemma_what_is_heard_of_a_slot(
    buffer: AudioBuffer,
    memory: Seq<u8>,
    numbers: Seq<u16>,
    position: MediaClockTimestamp,
    sequence_number: Option<u16>,
    channel: nat,
    i: nat,
)
    requires
        buffer.usable(),
        buffer.lies_in(memory, numbers),
        channel < buffer.channels(),
    ensures
        ({
            let index = (position.timestamp + i) % buffer.frames() as int * buffer.channels()
                + channel;
            let bytes = memory.subrange(4 * index, 4 * index + 4);
            let linear = if bytes[0] & 0x40 != 0 {
                SampleFormat::L16.value_in(bytes.skip(2))
            } else {
                SampleFormat::L24.value_in(bytes.skip(1))
            };
            let ratio = if bytes[0] & 0x40 != 0 {
                SampleFormat::L16.ratio_in(bytes.skip(2))
            } else {
                SampleFormat::L24.ratio_in(bytes.skip(1))
            };
            let expected = buffer.progress(
                memory,
                numbers,
                position,
                sequence_number,
                channel,
                i,
            ).sequence_number;
            let heard = buffer.played::<i32>(
                memory,
                numbers,
                position,
                sequence_number,
                channel,
                i,
            );
            let level = buffer.played::<SampleRatio>(
                memory,
                numbers,
                position,
                sequence_number,
                channel,
                i,
            );
            &&& bytes[0] & 0x08 != 0 || bytes[0] & 0x20 != 0 || bytes[0] & 0x80 != 0 ==> heard == 0
                && level.numerator == 0
            &&& bytes[0] & 0x08 == 0 && bytes[0] & 0x20 == 0 && bytes[0] & 0x80 == 0 && (
            expected matches Some(e) ==> numbers[index] == e || numbers[index] == (e + 1) % 65536)
                ==> Some(heard as int) == linear && Some(level) == ratio
        }),
{
    lemma_reading_goes_round(buffer, position.timestamp, channel, i);
    let index = buffer.read_index(position.timestamp, channel, i);
    let bytes = slot(memory, index);
    lemma_metadata_bits(bytes[0]);
    lemma_internal_samples_are_read(bytes);
}

/// Switching off the channels of a receiver sets two bits in the metadata of the
/// slots on the ports that play them out, and changes nothing else: no other bit,
/// no other byte, and no other port.
pub proof fn lemma_switching_off_marks_the_slots(
    buffer: AudioBuffer,
    memory: Seq<u8>,
    desc: DescriptorModel,
    routes: Routes,
    frame: nat,
    port: usize,
    k: int,
)
    requires
        buffer.usable(),
        memory.len() == 4 * buffer.slots(),
        frame < buffer.frames(),
        port < buffer.channels(),
        0 <= k < 4,
    ensures
        ({
            let i = 4 * (frame * buffer.channels() + port) + k;
            let off = buffer.switched_off(memory, desc, routes);
            let theirs = routes.contains_key(port) && routes[port].0.transceiver_id == desc.id
                && routes[port].0.channel_nr < desc.channels;
            &&& off.len() == memory.len()
            &&& 0 <= i < off.len()
            &&& off[i] == (if theirs && k == 0 {
                memory[i] | 0x28
            } else {
                memory[i]
            })
        }),
{
    let index = (frame * buffer.channels() + port) as int;
    lemma_index(
        frame as int,
        port as int,
        buffer.channels() as int,
        buffer.frames() as int,
    );
    let i = 4 * index + k;
    assert(i / 4 == index);
    let byte = memory[i];
    assert((byte | 0x08) | 0x20 == byte | 0x28) by (bit_vector);
}

/// What can be stored has room: each port on which the receiver is played out is one
/// of the ring, and each sample of a channel that is played out somewhere has two
/// or three bytes, or none. Where one of these does not hold, the payload is not
/// accepted.
pub proof fn lemma_what_is_stored_has_room(
    buffer: AudioBuffer,
    payload: Seq<u8>,
    desc: DescriptorModel,
    matrix: MatrixModel,
    port: usize,
    frame: int,
)
    requires
        matrix.routes.contains_key(port),
        matrix.routes[port].0.transceiver_id == desc.id,
        port < matrix.channels,
        0 <= frame < frames_in(payload, desc),
    ensures
        ({
            let channel = matrix.routes[port].0.channel_nr;
            let len = sample_at(payload, desc, frame, channel as int).len();
            &&& port >= buffer.channels() ==> !buffer.can_store(payload, desc, matrix)
            &&& len != 0 && len != 2 && len != 3 ==> !buffer.can_store(payload, desc, matrix)
            &&& desc.channels * (desc.bit_depth / 8) == 0 ==> !buffer.can_store(
                payload,
                desc,
                matrix,
            )
        }),
{
    let channel = matrix.routes[port].0.channel_nr;
    let ch = Channel { transceiver_id: desc.id, channel_nr: channel };
    lemma_lookups_agree(matrix.routes, ch, matrix.channels as nat, port);
    let ports = ports_of(matrix.routes, ch, matrix.channels as nat);
    assert(ports.contains(port));
    assert(channel_on(matrix.routes, desc.id, port) is Some);
    let sample = sample_at(payload, desc, frame, channel as int);
}

} // verus!
