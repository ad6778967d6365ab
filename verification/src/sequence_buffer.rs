//! A buffer that puts received packets back into the order of their sequence
//! numbers, and gives up those that do not come.

use crate::media_clock::{distance, MediaClockTimestamp};
use crate::rtp::{
    header_sequence_number, header_timestamp, is_outdated, is_rtp, next_sequence_number, outdated,
    payload_of, read_rtp, sequence_number_after,
};
use vstd::prelude::*;

verus! {

/// A received packet.
#[derive(Debug)]
pub struct Packet {
    pub timestamp: MediaClockTimestamp,
    pub sequence_number: u16,
    pub payload: Vec<u8>,
}

/// The mathematical value of a `Packet`.
pub struct PacketModel {
    pub timestamp: MediaClockTimestamp,
    pub sequence_number: u16,
    pub payload: Seq<u8>,
}

impl View for Packet {
    type V = PacketModel;

    open spec fn view(&self) -> PacketModel {
        PacketModel {
            timestamp: self.timestamp,
            sequence_number: self.sequence_number,
            payload: self.payload@,
        }
    }
}

/// What went wrong while packets were put into order.
#[derive(Debug, Clone, Copy, PartialEq, Eq, Structural)]
pub enum SequenceBufferEvent {
    /// Too many packets were waiting: packets that did not come were given up,
    /// or one that came too late was.
    PacketDrop,
    /// A packet came that was not due.
    OutOfOrderPacket,
}

/// The values of a list of packets.
pub open spec fn packets_in(packets: Seq<Packet>) -> Seq<PacketModel> {
    packets.map_values(|packet: Packet| packet@)
}

/// The packet that the bytes of a datagram hold.
pub open spec fn parsed_packet(bytes: Seq<u8>, sample_rate: usize) -> PacketModel {
    PacketModel {
        timestamp: MediaClockTimestamp {
            timestamp: header_timestamp(bytes) as u32,
            sample_rate,
        },
        sequence_number: header_sequence_number(bytes) as u16,
        payload: payload_of(bytes),
    }
}

/// Whether a packet is played out after another one.
#[verifier::opaque]
pub open spec fn later(a: PacketModel, b: PacketModel) -> bool {
    distance(a.timestamp.timestamp, b.timestamp.timestamp) > 0
}

/// Whether a packet with the same timestamp is waiting already.
pub open spec fn is_waiting(waiting: Seq<PacketModel>, packet: PacketModel) -> bool {
    exists|i: int|
        0 <= i < waiting.len() && (#[trigger] waiting[i]).timestamp.timestamp
            == packet.timestamp.timestamp
}

/// The place of a packet among those that wait: before the first later one.
pub open spec fn place(waiting: Seq<PacketModel>, packet: PacketModel) -> nat
    decreases waiting.len(),
{
    if waiting.len() == 0 || later(waiting[0], packet) {
        0
    } else {
        1 + place(waiting.drop_first(), packet)
    }
}

/// The packets that wait once another one has come. Of two packets with the
/// same timestamp the first is kept.
pub open spec fn with_waiting(waiting: Seq<PacketModel>, packet: PacketModel) -> Seq<PacketModel> {
    if is_waiting(waiting, packet) {
        waiting
    } else {
        waiting.insert(place(waiting, packet) as int, packet)
    }
}

/// How many of the packets that wait follow each other, the first with the
/// given sequence number.
pub open spec fn in_sequence(waiting: Seq<PacketModel>, number: u16) -> nat
    decreases waiting.len(),
{
    if waiting.len() == 0 || waiting[0].sequence_number != number {
        0
    } else {
        1 + in_sequence(waiting.drop_first(), next_sequence_number(number))
    }
}

/// The sequence number that comes `n` after another one.
pub open spec fn number_after(number: u16, n: nat) -> u16 {
    ((number + n) % 65536) as u16
}

/// The mathematical value of an `RtpSequenceBuffer`.
pub struct SequenceBufferModel {
    /// The packets that came too early, by the time at which they are due.
    pub waiting: Seq<PacketModel>,
    /// The packets that can be played out.
    pub playout: Seq<PacketModel>,
    /// How many packets can wait.
    pub capacity: nat,
    /// The sample rate of the receiver.
    pub sample_rate: usize,
    /// The sequence number that is due, once there was a packet.
    pub next_seq: Option<u16>,
    /// What went wrong so far.
    pub events: Seq<SequenceBufferEvent>,
}

impl SequenceBufferModel {
    /// The buffer when the given number is due and packets that wait are passed
    /// on, as far as they follow each other from that number on.
    pub open spec fn released(self, number: u16) -> SequenceBufferModel {
        let n = in_sequence(self.waiting, number);
        SequenceBufferModel {
            next_seq: Some(number_after(number, n)),
            playout: self.playout + self.waiting.take(n as int),
            waiting: self.waiting.skip(n as int),
            ..self
        }
    }

    /// The buffer when a packet that is not due waits with the others. Where
    /// that is one too many, the first of them is no longer held back: playout
    /// goes on with it, and what should have come before it is given up. If it
    /// is itself one that came too late, it is dropped.
    pub open spec fn held_back(self, packet: PacketModel, due: u16) -> SequenceBufferModel {
        let waiting = with_waiting(self.waiting, packet);
        let events = self.events.push(SequenceBufferEvent::OutOfOrderPacket);
        if waiting.len() <= self.capacity {
            SequenceBufferModel { waiting, events, ..self }
        } else {
            let first = waiting[0].sequence_number;
            let events = events.push(SequenceBufferEvent::PacketDrop);
            if outdated(first, due) {
                SequenceBufferModel { waiting: waiting.drop_first(), events, ..self }
            } else {
                (SequenceBufferModel { waiting, events, ..self }).released(first)
            }
        }
    }

    /// The buffer after a packet has come.
    pub open spec fn after(self, packet: PacketModel) -> SequenceBufferModel {
        let next = next_sequence_number(packet.sequence_number);
        let passed = SequenceBufferModel { playout: self.playout.push(packet), ..self };
        match self.next_seq {
            None => SequenceBufferModel { next_seq: Some(next), ..passed },
            Some(due) => if packet.sequence_number == due {
                passed.released(next)
            } else {
                self.held_back(packet, due)
            },
        }
    }

    /// The buffer after a datagram has come, which can be anything.
    pub open spec fn updated(self, bytes: Seq<u8>) -> SequenceBufferModel {
        if is_rtp(bytes) {
            self.after(parsed_packet(bytes, self.sample_rate))
        } else {
            self
        }
    }

    /// The buffer after several packets have come.
    pub open spec fn after_all(self, packets: Seq<PacketModel>) -> SequenceBufferModel
        decreases packets.len(),
    {
        if packets.len() == 0 {
            self
        } else {
            self.after_all(packets.drop_last()).after(packets.last())
        }
    }
}

/// Puts packets into the order of their sequence numbers.
#[derive(Debug)]
pub struct RtpSequenceBuffer {
    sequence_buffer: Vec<Packet>,
    playout_buffer: Vec<Packet>,
    capacity: usize,
    sample_rate: usize,
    next_seq: Option<u16>,
    events: Vec<SequenceBufferEvent>,
}

impl View for RtpSequenceBuffer {
    type V = SequenceBufferModel;

    closed spec fn view(&self) -> SequenceBufferModel {
        SequenceBufferModel {
            waiting: packets_in(self.sequence_buffer@),
            playout: packets_in(self.playout_buffer@),
            capacity: self.capacity as nat,
            sample_rate: self.sample_rate,
            next_seq: self.next_seq,
            events: self.events@,
        }
    }
}

impl RtpSequenceBuffer {
    /// No more packets wait than there is room for.
    pub open spec fn wf(&self) -> bool {
        self@.waiting.len() <= self@.capacity
    }

    /// An empty buffer for a receiver, in which as many packets can wait as
    /// are due within the link offset.
    pub fn new(sample_rate: usize, packets_in_link_offset: usize) -> (buffer: Self)
        ensures
            buffer.wf(),
            buffer@ == (SequenceBufferModel {
                waiting: Seq::empty(),
                playout: Seq::empty(),
                capacity: packets_in_link_offset as nat,
                sample_rate,
                next_seq: None,
                events: Seq::empty(),
            }),
    {
        let buffer = RtpSequenceBuffer {
            sequence_buffer: Vec::new(),
            playout_buffer: Vec::new(),
            capacity: packets_in_link_offset,
            sample_rate,
            next_seq: None,
            events: Vec::new(),
        };
        proof {
            assert(buffer@.waiting =~= Seq::empty());
            assert(buffer@.playout =~= Seq::empty());
            assert(buffer@.events =~= Seq::empty());
        }
        buffer
    }

    /// Takes a datagram and hands out the packets that can be played out.
    /// Those that are not removed stay.
    pub fn update(&mut self, packet: &[u8]) -> (playout: &mut Vec<Packet>)
        requires
            old(self).wf(),
        ensures
            final(self).wf(),
            packets_in(playout@) == old(self)@.updated(packet@).playout,
            final(self)@ == (SequenceBufferModel {
                playout: packets_in(final(playout)@),
                ..old(self)@.updated(packet@)
            }),
    {
        self.insert(packet);
        self.flush()
    }

    /// The events since the last call.
    pub fn take_events(&mut self) -> (events: Vec<SequenceBufferEvent>)
        requires
            old(self).wf(),
        ensures
            final(self).wf(),
            events@ == old(self)@.events,
            final(self)@ == (SequenceBufferModel { events: Seq::empty(), ..old(self)@ }),
    {
        let mut events: Vec<SequenceBufferEvent> = Vec::new();
        std::mem::swap(&mut events, &mut self.events);
        proof {
            assert(self.events@ =~= Seq::<SequenceBufferEvent>::empty());
        }
        events
    }

    fn insert(&mut self, packet: &[u8])
        requires
            old(self).wf(),
        ensures
            final(self).wf(),
            final(self)@ == old(self)@.updated(packet@),
    {
        match read_rtp(packet) {
            Some(rtp) => {
                let timestamp = MediaClockTimestamp::new(rtp.timestamp, self.sample_rate);
                self.do_insert(
                    Packet {
                        timestamp,
                        sequence_number: rtp.sequence_number,
                        payload: rtp.payload,
                    },
                );
            },
            None => {},
        }
    }

    fn do_insert(&mut self, packet: Packet)
        requires
            old(self).wf(),
        ensures
            final(self).wf(),
            final(self)@ == old(self)@.after(packet@),
    {
        let ghost before = self@;
        match self.next_seq {
            Some(seq) => {
                if seq == packet.sequence_number {
                    let next_seq = sequence_number_after(packet.sequence_number);
                    self.playout_buffer.push(packet);
                    proof {
                        assert(self@.playout =~= before.playout.push(packet@));
                        lemma_in_sequence(before.waiting, next_seq);
                    }
                    self.release(next_seq);
                } else {
                    self.events.push(SequenceBufferEvent::OutOfOrderPacket);
                    self.hold_back(packet);
                    let ghost held = with_waiting(before.waiting, packet@);
                    proof {
                        lemma_place(before.waiting, packet@);
                    }
                    if self.sequence_buffer.len() > self.capacity {
                        self.events.push(SequenceBufferEvent::PacketDrop);
                        let first = self.sequence_buffer[0].sequence_number;
                        assert(held[0].sequence_number == first);
                        if is_outdated(first, seq) {
                            let _dropped = self.sequence_buffer.remove(0);
                            proof {
                                assert(self@.waiting =~= held.drop_first());
                            }
                        } else {
                            proof {
                                lemma_in_sequence(held, first);
                            }
                            self.release(first);
                        }
                    }
                }
            },
            None => {
                self.next_seq = Some(sequence_number_after(packet.sequence_number));
                self.playout_buffer.push(packet);
                proof {
                    assert(self@.playout =~= before.playout.push(packet@));
                }
            },
        }
    }

    /// Passes on the packets that wait, as far as they follow each other from
    /// the given number on.
    fn release(&mut self, number: u16)
        ensures
            final(self)@ == old(self)@.released(number),
    {
        let ghost before = self@;
        let ghost total = in_sequence(before.waiting, number);
        let ghost mut n: nat = 0;
        let mut next_seq = number;
        proof {
            assert(self@.playout =~= before.playout + before.waiting.take(0));
            assert(self@.waiting =~= before.waiting.skip(0));
        }
        while self.sequence_buffer.len() > 0 && self.sequence_buffer[0].sequence_number == next_seq
            invariant
                n <= before.waiting.len(),
                total == n + in_sequence(self@.waiting, next_seq),
                next_seq == number_after(number, n),
                self@ == (SequenceBufferModel {
                    playout: before.playout + before.waiting.take(n as int),
                    waiting: before.waiting.skip(n as int),
                    ..before
                }),
            decreases self.sequence_buffer@.len(),
        {
            let ghost waiting = self@.waiting;
            let ghost playout = self@.playout;
            let packet = self.sequence_buffer.remove(0);
            next_seq = sequence_number_after(packet.sequence_number);
            self.playout_buffer.push(packet);
            proof {
                assert(waiting[0] == packet@);
                assert(self@.waiting =~= waiting.drop_first());
                assert(self@.waiting =~= before.waiting.skip(n as int + 1));
                assert(self@.playout =~= playout.push(packet@));
                assert(before.waiting.take(n as int + 1) =~= before.waiting.take(n as int).push(
                    waiting[0],
                ));
                assert(self@.playout =~= before.playout + before.waiting.take(n as int + 1));
                n = n + 1;
            }
        }
        self.next_seq = Some(next_seq);
    }

    /// Puts a packet among those that wait.
    fn hold_back(&mut self, packet: Packet)
        ensures
            final(self)@ == (SequenceBufferModel {
                waiting: with_waiting(old(self)@.waiting, packet@),
                ..old(self)@
            }),
    {
        reveal(later);
        let ghost before = self@;
        let ghost arrived = packet@;
        let len = self.sequence_buffer.len();
        let mut i: usize = 0;
        let mut found = false;
        while i < len && !found
            invariant
                i <= len,
                self@ == before,
                len == self.sequence_buffer@.len(),
                arrived == packet@,
                found ==> is_waiting(before.waiting, arrived),
                !found ==> forall|k: int|
                    0 <= k < i ==> (#[trigger] before.waiting[k]).timestamp.timestamp
                        != arrived.timestamp.timestamp,
            decreases len - i, (if found { 0int } else { 1int }),
        {
            assert(before.waiting[i as int] == self.sequence_buffer@[i as int]@);
            if self.sequence_buffer[i].timestamp.timestamp == packet.timestamp.timestamp {
                found = true;
            } else {
                i = i + 1;
            }
        }
        if found {
            return;
        }
        let mut at: usize = 0;
        proof {
            assert(before.waiting.skip(0) =~= before.waiting);
        }
        while at < len && self.sequence_buffer[at].timestamp.distance_from(&packet.timestamp) <= 0
            invariant
                at <= len,
                self@ == before,
                len == self.sequence_buffer@.len(),
                arrived == packet@,
                place(before.waiting, arrived) == at + place(
                    before.waiting.skip(at as int),
                    arrived,
                ),
            decreases len - at,
        {
            proof {
                reveal(later);
                assert(before.waiting[at as int] == self.sequence_buffer@[at as int]@);
                assert(before.waiting.skip(at as int).drop_first() =~= before.waiting.skip(
                    at as int + 1,
                ));
            }
            at = at + 1;
        }
        proof {
            if at < len {
                assert(before.waiting[at as int] == self.sequence_buffer@[at as int]@);
            }
        }
        self.sequence_buffer.insert(at, packet);
        proof {
            assert(self@.waiting =~= before.waiting.insert(at as int, arrived));
        }
    }

    fn flush(&mut self) -> (playout: &mut Vec<Packet>)
        ensures
            packets_in(playout@) == old(self)@.playout,
            final(self)@ == (SequenceBufferModel {
                playout: packets_in(final(playout)@),
                ..old(self)@
            }),
    {
        &mut self.playout_buffer
    }
}

/// The place of a packet is after those that are not later, and before a
/// later one or at the end.
proof fn lemma_place(waiting: Seq<PacketModel>, packet: PacketModel)
    ensures
        place(waiting, packet) <= waiting.len(),
        forall|i: int| 0 <= i < place(waiting, packet) ==> !later(#[trigger] waiting[i], packet),
        place(waiting, packet) < waiting.len() ==> later(
            waiting[place(waiting, packet) as int],
            packet,
        ),
    decreases waiting.len(),
{
    if waiting.len() > 0 && !later(waiting[0], packet) {
        let rest = waiting.drop_first();
        lemma_place(rest, packet);
        assert forall|i: int| 0 <= i < place(waiting, packet) implies !later(
            #[trigger] waiting[i],
            packet,
        ) by {
            if i > 0 {
                assert(waiting[i] == rest[i - 1]);
            }
        }
    }
}

/// Whether the sequence numbers of packets follow each other, the first being
/// the one given.
pub open spec fn consecutive(packets: Seq<PacketModel>, first: u16) -> bool {
    forall|i: int|
        0 <= i < packets.len() ==> (#[trigger] packets[i]).sequence_number == number_after(
            first,
            i as nat,
        )
}

proof fn lemma_in_sequence(waiting: Seq<PacketModel>, number: u16)
    ensures
        in_sequence(waiting, number) <= waiting.len(),
        consecutive(waiting.take(in_sequence(waiting, number) as int), number),
        in_sequence(waiting, number) < waiting.len() ==> waiting[in_sequence(
            waiting,
            number,
        ) as int].sequence_number != number_after(number, in_sequence(waiting, number)),
    decreases waiting.len(),
{
    if waiting.len() > 0 && waiting[0].sequence_number == number {
        let rest = waiting.drop_first();
        let next = next_sequence_number(number);
        lemma_in_sequence(rest, next);
        let n = in_sequence(waiting, number);
        assert forall|i: int| 0 <= i < n implies (#[trigger] waiting.take(
            n as int,
        )[i]).sequence_number == number_after(number, i as nat) by {
            if i > 0 {
                assert(waiting.take(n as int)[i] == rest.take(n - 1)[i - 1]);
            }
        }
    }
}

proof fn lemma_numbers_add_up(number: u16, a: nat, b: nat)
    ensures
        number_after(number_after(number, a), b) == number_after(number, a + b),
{
}

proof fn lemma_number_after_sum(number: u16, a: nat, b: nat)
    ensures
        number_after(next_sequence_number(number_after(number, a)), b) == number_after(
            number,
            a + 1 + b,
        ),
{
}

/// What is played out has consecutive sequence numbers as long as nothing is
/// given up: where that holds of the packets that can be played out, up to the
/// number that is due, it holds still when another packet has come.
#[verifier::spinoff_prover]
#[verifier::rlimit(40)]
pub proof fn lemma_playout_is_consecutive(
    buffer: SequenceBufferModel,
    packet: PacketModel,
    first: u16,
)
    requires
        consecutive(buffer.playout, first),
        match buffer.next_seq {
            Some(due) => {
                &&& due == number_after(first, buffer.playout.len())
                &&& packet.sequence_number == due || with_waiting(buffer.waiting, packet).len()
                    <= buffer.capacity
            },
            None => buffer.playout.len() == 0 && first == packet.sequence_number,
        },
    ensures
        consecutive(buffer.after(packet).playout, first),
        buffer.after(packet).next_seq == Some(
            number_after(first, buffer.after(packet).playout.len()),
        ),
{
    match buffer.next_seq {
        Some(due) => if packet.sequence_number == due {
            let next = next_sequence_number(due);
            let n = in_sequence(buffer.waiting, next);
            lemma_in_sequence(buffer.waiting, next);
            let released = buffer.waiting.take(n as int);
            let now = buffer.after(packet).playout;
            lemma_number_after_sum(first, buffer.playout.len(), n);
            assert forall|i: int| 0 <= i < now.len() implies (#[trigger] now[i]).sequence_number
                == number_after(first, i as nat) by {
                if i > buffer.playout.len() {
                    let k = (i - buffer.playout.len() - 1) as nat;
                    assert(now[i] == released[k as int]);
                    lemma_number_after_sum(first, buffer.playout.len(), k);
                } else if i < buffer.playout.len() {
                    assert(now[i] == buffer.playout[i]);
                }
            }
        },
        None => {},
    }
}

/// What is played out never goes back, whatever comes: the packets that one
/// packet sets free have consecutive numbers, the first of which is not before
/// the one that was due, and the number after the last of them is due next.
#[verifier::spinoff_prover]
#[verifier::rlimit(40)]
pub proof fn lemma_playout_never_goes_back(
    buffer: SequenceBufferModel,
    packet: PacketModel,
    due: u16,
)
    requires
        buffer.next_seq == Some(due),
    ensures
        ({
            let now = buffer.after(packet);
            let added = now.playout.skip(buffer.playout.len() as int);
            &&& now.playout == buffer.playout + added
            &&& added.len() == 0 ==> now.next_seq == Some(due)
            &&& added.len() > 0 ==> {
                &&& consecutive(added, added[0].sequence_number)
                &&& !outdated(added[0].sequence_number, due)
                &&& now.next_seq == Some(number_after(added[0].sequence_number, added.len()))
            }
        }),
{
    let now = buffer.after(packet);
    let added = now.playout.skip(buffer.playout.len() as int);
    if packet.sequence_number == due {
        let next = next_sequence_number(due);
        let n = in_sequence(buffer.waiting, next);
        lemma_in_sequence(buffer.waiting, next);
        let released = buffer.waiting.take(n as int);
        assert(added =~= seq![packet] + released);
        assert(now.playout =~= buffer.playout + added);
        assert forall|i: int| 0 <= i < added.len() implies (#[trigger] added[i]).sequence_number
            == number_after(due, i as nat) by {
            if i > 0 {
                assert(added[i] == released[i - 1]);
            }
        }
    } else {
        let waiting = with_waiting(buffer.waiting, packet);
        lemma_place(buffer.waiting, packet);
        if waiting.len() > buffer.capacity && !outdated(waiting[0].sequence_number, due) {
            let first = waiting[0].sequence_number;
            lemma_in_sequence(waiting, first);
            assert(added =~= waiting.take(in_sequence(waiting, first) as int));
            assert(now.playout =~= buffer.playout + added);
        } else {
            assert(added =~= Seq::empty());
            assert(now.playout =~= buffer.playout + added);
        }
    }
}

proof fn lemma_next_number(number: u16, n: nat)
    ensures
        next_sequence_number(number_after(number, n)) == number_after(number, n + 1),
{
}

proof fn lemma_due_packet_passes(buffer: SequenceBufferModel, packet: PacketModel)
    requires
        buffer.waiting.len() == 0,
        buffer.next_seq matches Some(due) ==> packet.sequence_number == due,
    ensures
        buffer.after(packet) == (SequenceBufferModel {
            next_seq: Some(next_sequence_number(packet.sequence_number)),
            playout: buffer.playout.push(packet),
            ..buffer
        }),
{
    let next = next_sequence_number(packet.sequence_number);
    let playout = buffer.playout.push(packet);
    assert(buffer.waiting.skip(0) =~= buffer.waiting);
    assert(playout + buffer.waiting.take(0) =~= playout);
    assert(number_after(next, 0) == next);
}

/// Packets that come in order are passed on as they came: nothing is held
/// back, and there is no event.
#[verifier::spinoff_prover]
#[verifier::rlimit(40)]
pub proof fn lemma_packets_in_order_pass(
    buffer: SequenceBufferModel,
    packets: Seq<PacketModel>,
    first: u16,
)
    requires
        buffer.waiting.len() == 0,
        consecutive(packets, first),
        buffer.next_seq matches Some(due) ==> due == first,
    ensures
        buffer.after_all(packets).playout == buffer.playout + packets,
        buffer.after_all(packets).waiting.len() == 0,
        buffer.after_all(packets).events == buffer.events,
        buffer.after_all(packets).capacity == buffer.capacity,
        packets.len() > 0 ==> buffer.after_all(packets).next_seq == Some(
            number_after(first, packets.len()),
        ),
        packets.len() == 0 ==> buffer.after_all(packets) == buffer,
    decreases packets.len(),
{
    if packets.len() > 0 {
        let earlier = packets.drop_last();
        lemma_packets_in_order_pass(buffer, earlier, first);
        let before = buffer.after_all(earlier);
        assert(packets[packets.len() - 1].sequence_number == number_after(first, earlier.len()));
        assert(number_after(first, 0) == first);
        lemma_due_packet_passes(before, packets.last());
        lemma_next_number(first, earlier.len());
        assert((buffer.playout + earlier).push(packets.last()) =~= buffer.playout + packets);
    } else {
        assert(buffer.playout + packets =~= buffer.playout);
    }
}

/// The packets with the given indices.
pub open spec fn select(packets: Seq<PacketModel>, indices: Seq<int>) -> Seq<PacketModel> {
    indices.map_values(|i: int| packets[i])
}

/// Whether indices increase and lie between two bounds, the bounds not included.
pub open spec fn increasing(indices: Seq<int>, low: int, high: int) -> bool {
    &&& forall|a: int| 0 <= a < indices.len() ==> low < #[trigger] indices[a] < high
    &&& forall|a: int, b: int|
        0 <= a < b < indices.len() ==> #[trigger] indices[a] < #[trigger] indices[b]
}

proof fn lemma_increasing_len(indices: Seq<int>, low: int, high: int)
    requires
        increasing(indices, low, high),
        low < high,
    ensures
        indices.len() < high - low,
    decreases indices.len(),
{
    if indices.len() > 0 {
        lemma_increasing_len(indices.drop_last(), low, indices.last());
    }
}

proof fn lemma_increasing_at_least(indices: Seq<int>, low: int, high: int, a: int)
    requires
        increasing(indices, low, high),
        0 <= a < indices.len(),
    ensures
        indices[a] >= low + 1 + a,
    decreases a,
{
    if a > 0 {
        lemma_increasing_at_least(indices, low, high, a - 1);
    }
}

/// Whether each packet is later than those before it.
pub open spec fn in_time_order(packets: Seq<PacketModel>) -> bool {
    forall|a: int, b: int|
        0 <= a < b < packets.len() ==> later(#[trigger] packets[b], #[trigger] packets[a])
}

/// Packets with consecutive numbers, each later than those before it.
pub open spec fn stream(packets: Seq<PacketModel>, first: u16) -> bool {
    &&& consecutive(packets, first)
    &&& in_time_order(packets)
}

/// The state of a buffer when the first `m` packets of a stream were passed on
/// and those with the given indices wait.
spec fn arranged(
    start: SequenceBufferModel,
    packets: Seq<PacketModel>,
    first: u16,
    m: nat,
    indices: Seq<int>,
    now: SequenceBufferModel,
) -> bool {
    &&& m <= packets.len()
    &&& increasing(indices, m as int, packets.len() as int)
    &&& now.playout == start.playout + packets.take(m as int)
    &&& now.waiting == select(packets, indices)
    &&& now.next_seq == Some(number_after(first, m))
    &&& now.capacity == start.capacity
}

proof fn lemma_same_number(number: u16, a: nat, b: nat)
    requires
        number_after(number, a) == number_after(number, b),
        -65536 < a - b < 65536,
    ensures
        a == b,
{
}

/// The packets of a stream that wait and follow each other from a place on: their
/// indices follow each other too.
#[verifier::spinoff_prover]
#[verifier::rlimit(40)]
proof fn lemma_run_of_stream(
    packets: Seq<PacketModel>,
    first: u16,
    low: int,
    start: nat,
    indices: Seq<int>,
    waiting: Seq<PacketModel>,
) -> (c: nat)
    requires
        consecutive(packets, first),
        -1 <= low < start <= packets.len(),
        packets.len() - low <= 65536,
        increasing(indices, low, packets.len() as int),
        waiting == select(packets, indices),
    ensures
        c == in_sequence(waiting, number_after(first, start)),
        c <= indices.len(),
        start + c <= packets.len(),
        forall|a: int| 0 <= a < c ==> #[trigger] indices[a] == start + a,
        c < indices.len() ==> indices[c as int] != start + c,
{
    let len = packets.len() as int;
    let number = number_after(first, start);
    let c = in_sequence(waiting, number);
    lemma_in_sequence(waiting, number);
    assert forall|a: int| 0 <= a < c implies #[trigger] indices[a] == start + a by {
        let i = indices[a];
        lemma_increasing_at_least(indices, low, len, a);
        assert(waiting.take(c as int)[a] == packets[i]);
        lemma_numbers_add_up(first, start, a as nat);
        lemma_same_number(first, i as nat, (start + a) as nat);
    }
    if c > 0 {
        assert(indices[c - 1] == start + c - 1);
    }
    if c < indices.len() {
        let i = indices[c as int];
        assert(waiting[c as int] == packets[i]);
        assert(packets[i].sequence_number == number_after(first, i as nat));
        lemma_numbers_add_up(first, start, c);
    }
    c
}

/// The packet of a stream that is due comes.
#[verifier::spinoff_prover]
#[verifier::rlimit(40)]
proof fn lemma_due_packet(
    start: SequenceBufferModel,
    packets: Seq<PacketModel>,
    first: u16,
    m: nat,
    indices: Seq<int>,
    now: SequenceBufferModel,
    j: int,
) -> (next: (nat, Seq<int>))
    requires
        stream(packets, first),
        packets.len() <= 65536,
        arranged(start, packets, first, m, indices, now),
        m == j < packets.len(),
        !indices.contains(j),
    ensures
        arranged(start, packets, first, next.0, next.1, now.after(packets[j])),
        next.0 + next.1.len() == m + indices.len() + 1,
        forall|i: int|
            #![trigger next.1.contains(i)]
            #![trigger indices.contains(i)]
            (0 <= i < next.0 || next.1.contains(i)) <==> (0 <= i < m || indices.contains(i) || i
                == j),
{
    let packet = packets[j];
    let len = packets.len() as int;
    let number = number_after(first, m + 1);
    lemma_next_number(first, m);
    assert(packet.sequence_number == number_after(first, j as nat));
    let c = lemma_run_of_stream(packets, first, m as int, m + 1, indices, now.waiting);
    if c < indices.len() {
        lemma_increasing_at_least(indices, m as int, len, c as int);
    }
    let after = now.after(packet);
    let rest = indices.skip(c as int);
    let reached = (m + 1 + c) as nat;
    assert(after == (SequenceBufferModel { playout: now.playout.push(packet), ..now }).released(
        number,
    ));
    lemma_numbers_add_up(first, m + 1, c);
    assert(increasing(rest, reached as int, len)) by {
        assert forall|a: int| 0 <= a < rest.len() implies reached < #[trigger] rest[a] < len by {
            assert(rest[a] == indices[a + c]);
            if a > 0 {
                assert(indices[c as int] < indices[a + c]);
            }
        }
        assert forall|a: int, b: int| 0 <= a < b < rest.len() implies #[trigger] rest[a]
            < #[trigger] rest[b] by {
            assert(rest[a] == indices[a + c] && rest[b] == indices[b + c]);
        }
    }
    assert(after.waiting =~= select(packets, rest));
    let released = now.waiting.take(c as int);
    assert(released =~= packets.subrange(m as int + 1, reached as int)) by {
        assert forall|a: int| 0 <= a < c implies released[a] == packets[m + 1 + a] by {
            assert(indices[a] == m + 1 + a);
        }
    }
    assert(after.playout =~= start.playout + packets.take(reached as int));
    assert forall|i: int|
        #![trigger rest.contains(i)]
        #![trigger indices.contains(i)]
        (0 <= i < reached || rest.contains(i)) <==> (0 <= i < m || indices.contains(i) || i
            == j) by {
        if rest.contains(i) {
            let a = rest.index_of(i);
            assert(indices[a + c] == i);
        }
        if indices.contains(i) {
            let a = indices.index_of(i);
            if a >= c {
                assert(rest[a - c] == i);
            }
        }
        if m < i < reached {
            assert(indices[i - m - 1] == i);
        }
    }
    (reached, rest)
}

proof fn lemma_later_one_way(a: PacketModel, b: PacketModel)
    requires
        later(a, b),
    ensures
        !later(b, a),
        a.timestamp.timestamp != b.timestamp.timestamp,
{
    reveal(later);
}

proof fn lemma_insert_index(indices: Seq<int>, low: int, high: int, at: int, j: int)
    requires
        increasing(indices, low, high),
        low < j < high,
        0 <= at <= indices.len(),
        forall|a: int| 0 <= a < at ==> #[trigger] indices[a] < j,
        at < indices.len() ==> j < indices[at],
    ensures
        increasing(indices.insert(at, j), low, high),
        forall|i: int|
            #[trigger] indices.insert(at, j).contains(i) <==> (indices.contains(i) || i == j),
{
    let more = indices.insert(at, j);
    assert forall|a: int| 0 <= a < more.len() implies low < #[trigger] more[a] < high by {
        if a < at {
            assert(more[a] == indices[a]);
        } else if a > at {
            assert(more[a] == indices[a - 1]);
        }
    }
    assert forall|a: int, b: int| 0 <= a < b < more.len() implies #[trigger] more[a]
        < #[trigger] more[b] by {
        if a < at {
            assert(more[a] == indices[a]);
            if b < at {
                assert(more[b] == indices[b]);
            } else if b > at {
                assert(more[b] == indices[b - 1]);
            }
        } else {
            assert(more[b] == indices[b - 1]);
            if a > at {
                assert(more[a] == indices[a - 1]);
            } else if b - 1 > at {
                assert(indices[at] < indices[b - 1]);
            }
        }
    }
    assert forall|i: int| #[trigger] more.contains(i) <==> (indices.contains(i) || i == j) by {
        if more.contains(i) && i != j {
            let a = more.index_of(i);
            assert(indices[if a < at { a } else { a - 1 }] == i);
        }
        if indices.contains(i) {
            let a = indices.index_of(i);
            assert(more[if a < at { a } else { a + 1 }] == i);
        }
        assert(more[at] == j);
    }
}

/// A packet is put among others that wait, by its index in a stream.
proof fn lemma_waits_with_others(
    packets: Seq<PacketModel>,
    low: int,
    indices: Seq<int>,
    waiting: Seq<PacketModel>,
    j: int,
) -> (more: Seq<int>)
    requires
        in_time_order(packets),
        -1 <= low < j < packets.len(),
        increasing(indices, low, packets.len() as int),
        waiting == select(packets, indices),
        !indices.contains(j),
    ensures
        increasing(more, low, packets.len() as int),
        more.len() == indices.len() + 1,
        with_waiting(waiting, packets[j]) == select(packets, more),
        forall|i: int| #[trigger] more.contains(i) <==> (indices.contains(i) || i == j),
{
    let packet = packets[j];
    let at = place(waiting, packet) as int;
    lemma_place(waiting, packet);
    assert forall|a: int| 0 <= a < indices.len() implies (#[trigger] waiting[a]
        == packets[indices[a]] && (later(waiting[a], packet) <==> indices[a] > j)
        && waiting[a].timestamp.timestamp != packet.timestamp.timestamp) by {
        let i = indices[a];
        assert(indices.contains(i));
        if i < j {
            lemma_later_one_way(packets[j], packets[i]);
        } else {
            lemma_later_one_way(packets[i], packets[j]);
        }
    }
    assert(!is_waiting(waiting, packet));
    assert forall|a: int| 0 <= a < at implies indices[a] < j by {
        assert(!later(waiting[a], packet));
        assert(indices.contains(indices[a]));
    }
    if at < indices.len() {
        assert(later(waiting[at], packet));
    }
    lemma_insert_index(indices, low, packets.len() as int, at, j);
    let more = indices.insert(at, j);
    assert(with_waiting(waiting, packet) =~= select(packets, more));
    more
}

proof fn lemma_packet_waits(buffer: SequenceBufferModel, packet: PacketModel, due: u16)
    requires
        buffer.next_seq == Some(due),
        packet.sequence_number != due,
        with_waiting(buffer.waiting, packet).len() <= buffer.capacity,
    ensures
        buffer.after(packet) == (SequenceBufferModel {
            waiting: with_waiting(buffer.waiting, packet),
            events: buffer.events.push(SequenceBufferEvent::OutOfOrderPacket),
            ..buffer
        }),
{
}

/// A packet of a stream comes before it is due.
#[verifier::spinoff_prover]
#[verifier::rlimit(40)]
proof fn lemma_early_packet(
    start: SequenceBufferModel,
    packets: Seq<PacketModel>,
    first: u16,
    m: nat,
    indices: Seq<int>,
    now: SequenceBufferModel,
    j: int,
) -> (next: (nat, Seq<int>))
    requires
        stream(packets, first),
        packets.len() <= start.capacity + 1,
        packets.len() <= 65536,
        arranged(start, packets, first, m, indices, now),
        m < j < packets.len(),
        !indices.contains(j),
    ensures
        arranged(start, packets, first, next.0, next.1, now.after(packets[j])),
        next.0 + next.1.len() == m + indices.len() + 1,
        forall|i: int|
            #![trigger next.1.contains(i)]
            #![trigger indices.contains(i)]
            (0 <= i < next.0 || next.1.contains(i)) <==> (0 <= i < m || indices.contains(i) || i
                == j),
{
    let packet = packets[j];
    assert(packet.sequence_number == number_after(first, j as nat));
    if packet.sequence_number == number_after(first, m) {
        lemma_same_number(first, j as nat, m);
    }
    let more = lemma_waits_with_others(packets, m as int, indices, now.waiting, j);
    lemma_increasing_len(more, m as int, packets.len() as int);
    lemma_packet_waits(now, packet, number_after(first, m));
    (m, more)
}

#[verifier::spinoff_prover]
#[verifier::rlimit(40)]
proof fn lemma_some_of_them(
    start: SequenceBufferModel,
    packets: Seq<PacketModel>,
    first: u16,
    order: Seq<int>,
) -> (state: (nat, Seq<int>))
    requires
        start.next_seq == Some(first),
        start.waiting.len() == 0,
        stream(packets, first),
        packets.len() <= start.capacity + 1,
        packets.len() <= 65536,
        order.no_duplicates(),
        forall|k: int| 0 <= k < order.len() ==> 0 <= #[trigger] order[k] < packets.len(),
    ensures
        arranged(
            start,
            packets,
            first,
            state.0,
            state.1,
            start.after_all(select(packets, order)),
        ),
        state.0 + state.1.len() == order.len(),
        forall|i: int|
            #![trigger state.1.contains(i)]
            #![trigger order.contains(i)]
            (0 <= i < state.0 || state.1.contains(i)) <==> order.contains(i),
    decreases order.len(),
{
    if order.len() == 0 {
        assert(select(packets, order) =~= Seq::empty());
        assert(start.playout + packets.take(0) =~= start.playout);
        assert(start.waiting =~= select(packets, Seq::empty()));
        assert(number_after(first, 0) == first);
        (0, Seq::empty())
    } else {
        let earlier = order.drop_last();
        let j = order.last();
        assert forall|k: int| 0 <= k < earlier.len() implies 0 <= #[trigger] earlier[k]
            < packets.len() by {
            assert(earlier[k] == order[k]);
        }
        let state = lemma_some_of_them(start, packets, first, earlier);
        lemma_not_before(order);
        assert(select(packets, order).drop_last() =~= select(packets, earlier));
        let now = start.after_all(select(packets, earlier));
        let next = if j == state.0 {
            lemma_due_packet(start, packets, first, state.0, state.1, now, j)
        } else {
            lemma_early_packet(start, packets, first, state.0, state.1, now, j)
        };
        assert forall|i: int| #[trigger]
            order.contains(i) <==> (0 <= i < next.0 || next.1.contains(i)) by {
            lemma_contained(order, i);
        }
        next
    }
}

/// Packets that come out of order are put back into order: however the
/// packets of a stream are shuffled, once all of them have come they were
/// passed on in the order of their numbers and none is held back, as long as
/// all of them but one can wait.
#[verifier::spinoff_prover]
#[verifier::rlimit(40)]
pub proof fn lemma_reordering_is_corrected(
    buffer: SequenceBufferModel,
    packets: Seq<PacketModel>,
    first: u16,
    order: Seq<int>,
)
    requires
        buffer.next_seq == Some(first),
        buffer.waiting.len() == 0,
        stream(packets, first),
        packets.len() <= buffer.capacity + 1,
        packets.len() <= 65536,
        order.len() == packets.len(),
        order.no_duplicates(),
        forall|k: int| 0 <= k < order.len() ==> 0 <= #[trigger] order[k] < packets.len(),
    ensures
        buffer.after_all(select(packets, order)).playout == buffer.playout + packets,
        buffer.after_all(select(packets, order)).waiting.len() == 0,
        buffer.after_all(select(packets, order)).next_seq == Some(
            number_after(first, packets.len()),
        ),
{
    let state = lemma_some_of_them(buffer, packets, first, order);
    if state.0 < packets.len() {
        lemma_increasing_len(state.1, state.0 as int, packets.len() as int);
    }
    if state.1.len() > 0 {
        assert(state.0 < state.1[0] < packets.len());
    }
    assert(packets.take(packets.len() as int) =~= packets);
}

proof fn lemma_increasing_at_most(indices: Seq<int>, low: int, high: int, a: int)
    requires
        increasing(indices, low, high),
        0 <= a < indices.len(),
    ensures
        indices[a] <= high - indices.len() + a,
    decreases indices.len() - a,
{
    if a < indices.len() - 1 {
        lemma_increasing_at_most(indices, low, high, a + 1);
    }
}

proof fn lemma_all_in_sequence(packets: Seq<PacketModel>, first: u16)
    requires
        consecutive(packets, first),
    ensures
        in_sequence(packets, first) == packets.len(),
    decreases packets.len(),
{
    if packets.len() > 0 {
        let rest = packets.drop_first();
        let next = next_sequence_number(first);
        assert(packets[0].sequence_number == number_after(first, 0));
        assert forall|i: int| 0 <= i < rest.len() implies (#[trigger] rest[i]).sequence_number
            == number_after(next, i as nat) by {
            assert(rest[i] == packets[i + 1]);
        }
        lemma_all_in_sequence(rest, next);
    }
}

/// Events that all say that a packet was not due.
pub open spec fn out_of_order(n: nat) -> Seq<SequenceBufferEvent> {
    Seq::new(n, |i: int| SequenceBufferEvent::OutOfOrderPacket)
}

/// Packets wait with those that wait already, in the order of time, as long as
/// there is room and none of them is the one that is due.
#[verifier::spinoff_prover]
#[verifier::rlimit(40)]
proof fn lemma_all_wait(
    start: SequenceBufferModel,
    packets: Seq<PacketModel>,
    due: u16,
    held: Seq<int>,
    order: Seq<int>,
) -> (indices: Seq<int>)
    requires
        start.next_seq == Some(due),
        increasing(held, -1, packets.len() as int),
        start.waiting == select(packets, held),
        in_time_order(packets),
        forall|i: int|
            0 <= i < packets.len() ==> (#[trigger] packets[i]).sequence_number != due,
        held.len() + order.len() <= start.capacity,
        order.no_duplicates(),
        forall|k: int| 0 <= k < order.len() ==> 0 <= #[trigger] order[k] < packets.len(),
        forall|k: int| 0 <= k < order.len() ==> !held.contains(#[trigger] order[k]),
    ensures
        increasing(indices, -1, packets.len() as int),
        indices.len() == held.len() + order.len(),
        start.after_all(select(packets, order)) == (SequenceBufferModel {
            waiting: select(packets, indices),
            events: start.events + out_of_order(order.len()),
            ..start
        }),
        forall|i: int| #[trigger]
            indices.contains(i) <==> (held.contains(i) || order.contains(i)),
    decreases order.len(),
{
    if order.len() == 0 {
        assert(select(packets, order) =~= Seq::empty());
        assert(start.events + out_of_order(0) =~= start.events);
        held
    } else {
        let earlier = order.drop_last();
        let j = order.last();
        assert forall|k: int| 0 <= k < earlier.len() implies 0 <= #[trigger] earlier[k]
            < packets.len() && !held.contains(earlier[k]) by {
            assert(earlier[k] == order[k]);
        }
        let indices = lemma_all_wait(start, packets, due, held, earlier);
        lemma_not_before(order);
        assert(select(packets, order).drop_last() =~= select(packets, earlier));
        let now = start.after_all(select(packets, earlier));
        assert(0 <= order[order.len() - 1] < packets.len());
        assert(!held.contains(order[order.len() - 1]));
        let more = lemma_waits_with_others(packets, -1, indices, now.waiting, j);
        lemma_packet_waits(now, packets[j], due);
        assert(now.events.push(SequenceBufferEvent::OutOfOrderPacket) =~= start.events
            + out_of_order(order.len()));
        assert forall|i: int| #[trigger]
            more.contains(i) <==> (held.contains(i) || order.contains(i)) by {
            lemma_contained(order, i);
        }
        more
    }
}

proof fn lemma_not_before(order: Seq<int>)
    requires
        order.len() > 0,
        order.no_duplicates(),
    ensures
        !order.drop_last().contains(order.last()),
{
    let earlier = order.drop_last();
    if earlier.contains(order.last()) {
        let k = earlier.index_of(order.last());
        assert(order[k] == order[order.len() - 1]);
    }
}

proof fn lemma_contained(order: Seq<int>, i: int)
    requires
        order.len() > 0,
    ensures
        order.contains(i) <==> (order.drop_last().contains(i) || i == order.last()),
{
    let earlier = order.drop_last();
    if order.contains(i) && i != order.last() {
        let k = order.index_of(i);
        assert(earlier[k] == i);
    }
    if earlier.contains(i) {
        let k = earlier.index_of(i);
        assert(order[k] == i);
    }
    assert(order[order.len() - 1] == order.last());
}

proof fn lemma_number_after_gap(due: u16, missing: nat, i: nat)
    requires
        0 < missing < 32768,
        missing + i < 65536,
    ensures
        number_after(number_after(due, missing), i) != due,
        !outdated(number_after(due, missing), due),
{
}

/// The last of the packets comes for which there is no room any more.
#[verifier::spinoff_prover]
#[verifier::rlimit(40)]
proof fn lemma_gap_is_left_behind(
    before: SequenceBufferModel,
    packets: Seq<PacketModel>,
    due: u16,
    first: u16,
    indices: Seq<int>,
    j: int,
)
    requires
        before.next_seq == Some(due),
        packets.len() == before.capacity + 1,
        stream(packets, first),
        !outdated(first, due),
        0 <= j < packets.len(),
        packets[j].sequence_number != due,
        increasing(indices, -1, packets.len() as int),
        indices.len() + 1 == packets.len(),
        !indices.contains(j),
        before.waiting == select(packets, indices),
    ensures
        before.after(packets[j]) == (SequenceBufferModel {
            next_seq: Some(number_after(first, packets.len())),
            playout: before.playout + packets,
            waiting: Seq::empty(),
            events: before.events.push(SequenceBufferEvent::OutOfOrderPacket).push(
                SequenceBufferEvent::PacketDrop,
            ),
            ..before
        }),
{
    let len = packets.len() as int;
    let more = lemma_waits_with_others(packets, -1, indices, before.waiting, j);
    assert forall|a: int| 0 <= a < len implies more[a] == a by {
        lemma_increasing_at_least(more, -1, len, a);
        lemma_increasing_at_most(more, -1, len, a);
    }
    assert(select(packets, more) =~= packets);
    assert(packets[0].sequence_number == number_after(first, 0));
    lemma_all_in_sequence(packets, first);
    assert(packets.take(len) =~= packets);
    assert(packets.skip(len) =~= Seq::empty());
}

/// Packets that do not come are given up: when packets are missing and one more
/// of those after the gap have come than can wait, all of them are passed on in
/// the order of their numbers, none is held back, and the number after the last
/// of them is due. Some of them can wait already, and the others come in
/// whichever order. More than half of the sequence numbers cannot be missing at
/// once, as those after the gap would be taken for earlier ones.
#[verifier::spinoff_prover]
#[verifier::rlimit(40)]
pub proof fn lemma_missing_packets_are_given_up(
    buffer: SequenceBufferModel,
    packets: Seq<PacketModel>,
    due: u16,
    missing: nat,
    held: Seq<int>,
    order: Seq<int>,
)
    requires
        buffer.next_seq == Some(due),
        0 < missing < 32768,
        stream(packets, number_after(due, missing)),
        packets.len() == buffer.capacity + 1,
        missing + packets.len() <= 65536,
        increasing(held, -1, packets.len() as int),
        buffer.waiting == select(packets, held),
        held.len() <= buffer.capacity,
        held.len() + order.len() == packets.len(),
        order.no_duplicates(),
        forall|k: int| 0 <= k < order.len() ==> 0 <= #[trigger] order[k] < packets.len(),
        forall|k: int| 0 <= k < order.len() ==> !held.contains(#[trigger] order[k]),
    ensures
        buffer.after_all(select(packets, order)) == (SequenceBufferModel {
            next_seq: Some(number_after(due, missing + packets.len())),
            playout: buffer.playout + packets,
            waiting: Seq::empty(),
            events: (buffer.events + out_of_order(order.len())).push(
                SequenceBufferEvent::PacketDrop,
            ),
            ..buffer
        }),
{
    let first = number_after(due, missing);
    let len = packets.len() as int;
    let earlier = order.drop_last();
    let j = order.last();
    assert forall|i: int| 0 <= i < len implies (#[trigger] packets[i]).sequence_number != due by {
        assert(packets[i].sequence_number == number_after(first, i as nat));
        lemma_number_after_gap(due, missing, i as nat);
    }
    assert forall|k: int| 0 <= k < earlier.len() implies 0 <= #[trigger] earlier[k] < len
        && !held.contains(earlier[k]) by {
        assert(earlier[k] == order[k]);
    }
    let indices = lemma_all_wait(buffer, packets, due, held, earlier);
    lemma_not_before(order);
    assert(0 <= order[order.len() - 1] < len);
    assert(!held.contains(order[order.len() - 1]));
    let before = buffer.after_all(select(packets, earlier));
    assert(select(packets, order).drop_last() =~= select(packets, earlier));
    lemma_number_after_gap(due, missing, 0);
    lemma_gap_is_left_behind(before, packets, due, first, indices, j);
    assert(before.events.push(SequenceBufferEvent::OutOfOrderPacket) =~= buffer.events
        + out_of_order(order.len()));
    lemma_numbers_add_up(due, missing, packets.len());
}

proof fn lemma_one_after_the_other(
    buffer: SequenceBufferModel,
    a: Seq<PacketModel>,
    b: Seq<PacketModel>,
)
    ensures
        buffer.after_all(a + b) == buffer.after_all(a).after_all(b),
    decreases b.len(),
{
    if b.len() == 0 {
        assert(a + b =~= a);
    } else {
        lemma_one_after_the_other(buffer, a, b.drop_last());
        assert((a + b).drop_last() =~= a + b.drop_last());
    }
}

/// Playout goes on after a loss: once one more of the packets after the gap have
/// come than can wait, of which some can wait already while the others come in
/// whichever order, and the stream then goes on in order, all of them were
/// passed on in the order of their numbers, and nothing is held back any more.
/// It does not matter how long the stream goes on.
#[verifier::spinoff_prover]
#[verifier::rlimit(40)]
pub proof fn lemma_playout_goes_on_after_loss(
    buffer: SequenceBufferModel,
    packets: Seq<PacketModel>,
    due: u16,
    missing: nat,
    held: Seq<int>,
    order: Seq<int>,
)
    requires
        buffer.next_seq == Some(due),
        0 < missing < 32768,
        missing + buffer.capacity < 65536,
        packets.len() > buffer.capacity,
        consecutive(packets, number_after(due, missing)),
        in_time_order(packets.take(buffer.capacity as int + 1)),
        increasing(held, -1, buffer.capacity as int + 1),
        buffer.waiting == select(packets, held),
        held.len() <= buffer.capacity,
        held.len() + order.len() == buffer.capacity + 1,
        order.no_duplicates(),
        forall|k: int| 0 <= k < order.len() ==> 0 <= #[trigger] order[k] <= buffer.capacity,
        forall|k: int| 0 <= k < order.len() ==> !held.contains(#[trigger] order[k]),
    ensures
        ({
            let later = packets.skip(buffer.capacity as int + 1);
            let now = buffer.after_all(select(packets, order) + later);
            &&& now.playout == buffer.playout + packets
            &&& now.waiting.len() == 0
            &&& now.next_seq == Some(number_after(due, missing + packets.len()))
            &&& now.events == (buffer.events + out_of_order(order.len())).push(
                SequenceBufferEvent::PacketDrop,
            )
        }),
{
    let first = number_after(due, missing);
    let n = (buffer.capacity + 1) as nat;
    let near = packets.take(n as int);
    let rest = packets.skip(n as int);
    assert forall|i: int| 0 <= i < near.len() implies (#[trigger] near[i]).sequence_number
        == number_after(first, i as nat) by {
        assert(near[i] == packets[i]);
    }
    assert(select(packets, held) =~= select(near, held));
    assert(select(packets, order) =~= select(near, order));
    lemma_missing_packets_are_given_up(buffer, near, due, missing, held, order);
    let then = number_after(due, missing + n);
    assert forall|i: int| 0 <= i < rest.len() implies (#[trigger] rest[i]).sequence_number
        == number_after(then, i as nat) by {
        assert(rest[i] == packets[n + i]);
        lemma_numbers_add_up(first, n, i as nat);
        lemma_numbers_add_up(due, missing, n);
    }
    let now = buffer.after_all(select(near, order));
    lemma_packets_in_order_pass(now, rest, then);
    lemma_numbers_add_up(due, missing + n, rest.len());
    lemma_one_after_the_other(buffer, select(near, order), rest);
    assert(near + rest =~= packets);
    assert(buffer.playout + near + rest =~= buffer.playout + packets);
}

/// A buffer in the midst of a stream: the packet at a place of the stream is
/// due, and those at some places wait, of which some can have come too late.
pub open spec fn within(
    buffer: SequenceBufferModel,
    sent: Seq<PacketModel>,
    first: u16,
    at: nat,
    held: Seq<int>,
) -> bool {
    &&& stream(sent, first)
    &&& at <= sent.len() <= 32768
    &&& increasing(held, -1, sent.len() as int)
    &&& held.len() <= buffer.capacity
    &&& buffer.waiting == select(sent, held)
    &&& buffer.next_seq == Some(number_after(first, at))
}

/// How far a buffer has come in a stream.
pub struct Progress {
    /// The place of the packet that is due.
    pub at: nat,
    /// The places of the packets that wait.
    pub held: Seq<int>,
    /// The places of the packets that were passed on meanwhile.
    pub passed: Seq<int>,
    /// The places of the packets that came too late and were dropped.
    pub late: Seq<int>,
}

/// What holds of a buffer in the midst of a stream when packets of the stream
/// have come: the packets that were passed on are in the order of the stream,
/// beginning with the one that was due or a later one, and each packet that had
/// waited or has come waits still, was passed on, or was dropped as one that came
/// too late.
pub open spec fn progressed(
    before: SequenceBufferModel,
    sent: Seq<PacketModel>,
    first: u16,
    at: nat,
    held: Seq<int>,
    come: Seq<int>,
    now: SequenceBufferModel,
    progress: Progress,
) -> bool {
    &&& within(now, sent, first, progress.at, progress.held)
    &&& now.capacity == before.capacity
    &&& now.playout == before.playout + select(sent, progress.passed)
    &&& at <= progress.at
    &&& increasing(progress.passed, at - 1, progress.at as int)
    &&& progress.passed.len() == 0 ==> progress.at == at
    &&& forall|k: int| 0 <= k < progress.late.len() ==> #[trigger] progress.late[k] < progress.at
    &&& progress.held.len() + progress.passed.len() + progress.late.len() == held.len()
        + come.len()
    &&& forall|i: int|
        (held.contains(i) || come.contains(i)) <==> (#[trigger] progress.held.contains(i)
            || progress.passed.contains(i) || progress.late.contains(i))
}

/// The indices from one up to another one, the latter not included.
spec fn run(from: int, to: int) -> Seq<int> {
    Seq::new((to - from) as nat, |k: int| from + k)
}

proof fn lemma_run(from: int, to: int, i: int)
    requires
        from <= to,
    ensures
        run(from, to).contains(i) <==> from <= i < to,
{
    if from <= i < to {
        assert(run(from, to)[i - from] == i);
    }
}

proof fn lemma_split(indices: Seq<int>, c: int, i: int)
    requires
        0 <= c <= indices.len(),
    ensures
        indices.contains(i) <==> (indices.take(c).contains(i) || indices.skip(c).contains(i)),
{
    if indices.contains(i) {
        let k = indices.index_of(i);
        if k < c {
            assert(indices.take(c)[k] == i);
        } else {
            assert(indices.skip(c)[k - c] == i);
        }
    }
    if indices.take(c).contains(i) {
        let k = indices.take(c).index_of(i);
        assert(indices[k] == i);
    }
    if indices.skip(c).contains(i) {
        let k = indices.skip(c).index_of(i);
        assert(indices[k + c] == i);
    }
}

proof fn lemma_increasing_skip(indices: Seq<int>, low: int, high: int, c: int)
    requires
        increasing(indices, low, high),
        0 <= c <= indices.len(),
    ensures
        increasing(indices.skip(c), low, high),
{
    let rest = indices.skip(c);
    assert forall|a: int| 0 <= a < rest.len() implies low < #[trigger] rest[a] < high by {
        assert(rest[a] == indices[a + c]);
    }
    assert forall|a: int, b: int| 0 <= a < b < rest.len() implies #[trigger] rest[a]
        < #[trigger] rest[b] by {
        assert(rest[a] == indices[a + c] && rest[b] == indices[b + c]);
    }
}

proof fn lemma_outdated_place(first: u16, i: nat, at: nat)
    requires
        i < 32768,
        at <= 32768,
    ensures
        outdated(number_after(first, i), number_after(first, at)) <==> i < at,
{
}

/// The packets that wait are passed on from a place of the stream on.
#[verifier::spinoff_prover]
#[verifier::rlimit(40)]
proof fn lemma_release_in_stream(
    buffer: SequenceBufferModel,
    sent: Seq<PacketModel>,
    first: u16,
    held: Seq<int>,
    start: nat,
) -> (c: nat)
    requires
        stream(sent, first),
        start <= sent.len() <= 32768,
        increasing(held, -1, sent.len() as int),
        buffer.waiting == select(sent, held),
    ensures
        c <= held.len(),
        start + c <= sent.len(),
        held.take(c as int) == run(start as int, start as int + c),
        held.len() > 0 && held[0] == start ==> c > 0,
        buffer.released(number_after(first, start)) == (SequenceBufferModel {
            next_seq: Some(number_after(first, start + c)),
            playout: buffer.playout + select(sent, run(start as int, start as int + c)),
            waiting: select(sent, held.skip(c as int)),
            ..buffer
        }),
{
    let c = lemma_run_of_stream(sent, first, -1, start, held, buffer.waiting);
    lemma_numbers_add_up(first, start, c);
    assert(held.take(c as int) =~= run(start as int, start as int + c)) by {
        assert forall|a: int| 0 <= a < c implies held.take(c as int)[a] == start + a by {
            assert(held[a] == start + a);
        }
    }
    assert(buffer.waiting.take(c as int) =~= select(sent, held.take(c as int)));
    assert(buffer.waiting.skip(c as int) =~= select(sent, held.skip(c as int)));
    c
}

/// The packet of a stream that is due comes.
#[verifier::spinoff_prover]
#[verifier::rlimit(40)]
proof fn lemma_due_comes(
    buffer: SequenceBufferModel,
    sent: Seq<PacketModel>,
    first: u16,
    at: nat,
    held: Seq<int>,
) -> (progress: Progress)
    requires
        within(buffer, sent, first, at, held),
        at < sent.len(),
        !held.contains(at as int),
    ensures
        progressed(
            buffer,
            sent,
            first,
            at,
            held,
            seq![at as int],
            buffer.after(sent[at as int]),
            progress,
        ),
{
    let packet = sent[at as int];
    assert(packet.sequence_number == number_after(first, at));
    lemma_next_number(first, at);
    let passing = SequenceBufferModel { playout: buffer.playout.push(packet), ..buffer };
    let c = lemma_release_in_stream(passing, sent, first, held, at + 1);
    let progress = Progress {
        at: at + 1 + c,
        held: held.skip(c as int),
        passed: run(at as int, at as int + 1 + c),
        late: Seq::empty(),
    };
    let now = buffer.after(packet);
    assert(now == passing.released(number_after(first, at + 1)));
    assert(now.playout =~= buffer.playout + select(sent, progress.passed));
    lemma_increasing_skip(held, -1, sent.len() as int, c as int);
    assert forall|i: int|
        (held.contains(i) || seq![at as int].contains(i)) <==> (
        #[trigger] progress.held.contains(i) || progress.passed.contains(i)
            || progress.late.contains(i)) by {
        lemma_split(held, c as int, i);
        lemma_run(at as int, at as int + 1 + c, i);
        lemma_run(at as int + 1, at as int + 1 + c, i);
        assert(seq![at as int][0] == at);
    }
    progress
}

/// A packet of a stream comes that is not due.
#[verifier::spinoff_prover]
#[verifier::rlimit(40)]
proof fn lemma_other_comes(
    buffer: SequenceBufferModel,
    sent: Seq<PacketModel>,
    first: u16,
    at: nat,
    held: Seq<int>,
    j: int,
) -> (progress: Progress)
    requires
        within(buffer, sent, first, at, held),
        0 <= j < sent.len(),
        j != at,
        !held.contains(j),
    ensures
        progressed(buffer, sent, first, at, held, seq![j], buffer.after(sent[j]), progress),
{
    let packet = sent[j];
    let due = number_after(first, at);
    let len = sent.len() as int;
    assert(packet.sequence_number == number_after(first, j as nat));
    if packet.sequence_number == due {
        lemma_same_number(first, j as nat, at);
    }
    let more = lemma_waits_with_others(sent, -1, held, buffer.waiting, j);
    let now = buffer.after(packet);
    let come = seq![j];
    assert(come[0] == j);
    assert(buffer.playout + select(sent, Seq::empty()) =~= buffer.playout);
    if more.len() <= buffer.capacity {
        lemma_packet_waits(buffer, packet, due);
        let progress = Progress { at, held: more, passed: Seq::empty(), late: Seq::empty() };
        assert forall|i: int|
            (held.contains(i) || come.contains(i)) <==> (#[trigger] progress.held.contains(i)
                || progress.passed.contains(i) || progress.late.contains(i)) by {
            assert(more.contains(i) <==> (held.contains(i) || i == j));
        }
        assert(progressed(buffer, sent, first, at, held, come, now, progress));
        progress
    } else {
        let low = more[0];
        assert(-1 < low < len);
        let waiting = select(sent, more);
        assert(waiting[0].sequence_number == number_after(first, low as nat));
        lemma_outdated_place(first, low as nat, at);
        let events = buffer.events.push(SequenceBufferEvent::OutOfOrderPacket).push(
            SequenceBufferEvent::PacketDrop,
        );
        let full = SequenceBufferModel { waiting, events, ..buffer };
        if low < at {
            let rest = more.skip(1);
            assert(waiting.drop_first() =~= select(sent, rest));
            lemma_increasing_skip(more, -1, len, 1);
            let progress = Progress { at, held: rest, passed: Seq::empty(), late: seq![low] };
            assert forall|i: int|
                (held.contains(i) || come.contains(i)) <==> (#[trigger] progress.held.contains(i)
                    || progress.passed.contains(i) || progress.late.contains(i)) by {
                lemma_split(more, 1, i);
                assert(more.take(1) =~= seq![low]);
                assert(more.contains(i) <==> (held.contains(i) || i == j));
            }
            assert(progressed(buffer, sent, first, at, held, come, now, progress));
            progress
        } else {
            let c = lemma_release_in_stream(full, sent, first, more, low as nat);
            assert(now == full.released(number_after(first, low as nat)));
            let rest = more.skip(c as int);
            lemma_increasing_skip(more, -1, len, c as int);
            let progress = Progress {
                at: (low + c) as nat,
                held: rest,
                passed: run(low, low + c),
                late: Seq::empty(),
            };
            assert forall|i: int|
                (held.contains(i) || come.contains(i)) <==> (#[trigger] progress.held.contains(i)
                    || progress.passed.contains(i) || progress.late.contains(i)) by {
                lemma_split(more, c as int, i);
                assert(more.contains(i) <==> (held.contains(i) || i == j));
            }
            assert(progressed(buffer, sent, first, at, held, come, now, progress));
            progress
        }
    }
}

proof fn lemma_appended(a: Seq<int>, b: Seq<int>, i: int)
    ensures
        (a + b).contains(i) <==> (a.contains(i) || b.contains(i)),
{
    lemma_split(a + b, a.len() as int, i);
    assert((a + b).take(a.len() as int) =~= a);
    assert((a + b).skip(a.len() as int) =~= b);
}

proof fn lemma_accounted_for(
    before: SequenceBufferModel,
    sent: Seq<PacketModel>,
    first: u16,
    at: nat,
    held: Seq<int>,
    come: Seq<int>,
    now: SequenceBufferModel,
    progress: Progress,
    i: int,
)
    requires
        progressed(before, sent, first, at, held, come, now, progress),
    ensures
        (held.contains(i) || come.contains(i)) <==> (progress.held.contains(i)
            || progress.passed.contains(i) || progress.late.contains(i)),
{
}

/// Progress is made step by step.
#[verifier::spinoff_prover]
#[verifier::rlimit(40)]
proof fn lemma_progress_adds_up(
    start: SequenceBufferModel,
    sent: Seq<PacketModel>,
    first: u16,
    at: nat,
    held: Seq<int>,
    come: Seq<int>,
    now: SequenceBufferModel,
    progress: Progress,
    j: int,
    next: SequenceBufferModel,
    step: Progress,
) -> (total: Progress)
    requires
        progressed(start, sent, first, at, held, come, now, progress),
        progressed(now, sent, first, progress.at, progress.held, seq![j], next, step),
    ensures
        progressed(start, sent, first, at, held, come.push(j), next, total),
{
    let total = Progress {
        at: step.at,
        held: step.held,
        passed: progress.passed + step.passed,
        late: progress.late + step.late,
    };
    let n = progress.passed.len() as int;
    assert(start.playout + select(sent, progress.passed) + select(sent, step.passed)
        =~= start.playout + select(sent, total.passed));
    assert(increasing(total.passed, at - 1, total.at as int)) by {
        assert forall|a: int| 0 <= a < total.passed.len() implies at - 1
            < #[trigger] total.passed[a] < total.at by {
            if a < n {
                assert(total.passed[a] == progress.passed[a]);
            } else {
                assert(total.passed[a] == step.passed[a - n]);
            }
        }
        assert forall|a: int, b: int| 0 <= a < b < total.passed.len() implies
            #[trigger] total.passed[a] < #[trigger] total.passed[b] by {
            if b < n {
                assert(progress.passed[a] < progress.passed[b]);
            } else if a >= n {
                assert(step.passed[a - n] < step.passed[b - n]);
            } else {
                assert(progress.passed[a] < progress.at);
                assert(progress.at - 1 < step.passed[b - n]);
            }
        }
    }
    assert forall|k: int| 0 <= k < total.late.len() implies #[trigger] total.late[k]
        < total.at by {
        if k < progress.late.len() {
            assert(progress.late[k] < progress.at);
        } else {
            assert(step.late[k - progress.late.len()] < step.at);
        }
    }
    assert forall|i: int|
        (held.contains(i) || come.push(j).contains(i)) <==> (#[trigger] total.held.contains(i)
            || total.passed.contains(i) || total.late.contains(i)) by {
        lemma_appended(progress.passed, step.passed, i);
        lemma_appended(progress.late, step.late, i);
        lemma_appended(come, seq![j], i);
        assert(come.push(j) =~= come + seq![j]);
        lemma_accounted_for(start, sent, first, at, held, come, now, progress, i);
        lemma_accounted_for(
            now,
            sent,
            first,
            progress.at,
            progress.held,
            seq![j],
            next,
            step,
            i,
        );
    }
    total
}

/// Whichever packets of a stream are lost, and in whichever order the others
/// come, playout follows the stream: from any state in the midst of the stream,
/// with packets that wait already, what is passed on is in the order of the
/// stream, a packet is dropped only if playout has gone past it, and never more
/// than can wait are held back. So playout goes on as soon as more have come than can
/// wait, whatever is missing before them. The stream is one of at most half as
/// many packets as there are sequence numbers, as later ones would be taken for
/// earlier ones.
#[verifier::spinoff_prover]
#[verifier::rlimit(40)]
pub proof fn lemma_playout_follows_the_stream(
    buffer: SequenceBufferModel,
    sent: Seq<PacketModel>,
    first: u16,
    at: nat,
    held: Seq<int>,
    order: Seq<int>,
) -> (progress: Progress)
    requires
        within(buffer, sent, first, at, held),
        order.no_duplicates(),
        forall|k: int| 0 <= k < order.len() ==> 0 <= #[trigger] order[k] < sent.len(),
        forall|k: int| 0 <= k < order.len() ==> !held.contains(#[trigger] order[k]),
    ensures
        progressed(
            buffer,
            sent,
            first,
            at,
            held,
            order,
            buffer.after_all(select(sent, order)),
            progress,
        ),
        ({
            &&& held.len() + order.len() > buffer.capacity
            &&& forall|i: int| held.contains(i) ==> i >= at
            &&& forall|i: int| order.contains(i) ==> i >= at
        }) ==> progress.passed.len() > 0,
    decreases order.len(),
{
    let now = buffer.after_all(select(sent, order));
    let progress = if order.len() == 0 {
        assert(select(sent, order) =~= Seq::empty());
        assert(buffer.playout + select(sent, Seq::empty()) =~= buffer.playout);
        Progress { at, held, passed: Seq::empty(), late: Seq::empty() }
    } else {
        let earlier = order.drop_last();
        let j = order.last();
        assert forall|k: int| 0 <= k < earlier.len() implies 0 <= #[trigger] earlier[k]
            < sent.len() && !held.contains(earlier[k]) by {
            assert(earlier[k] == order[k]);
        }
        let so_far = lemma_playout_follows_the_stream(buffer, sent, first, at, held, earlier);
        lemma_not_before(order);
        assert(select(sent, order).drop_last() =~= select(sent, earlier));
        let before = buffer.after_all(select(sent, earlier));
        assert(0 <= order[order.len() - 1] < sent.len());
        assert(!held.contains(order[order.len() - 1]));
        assert(!so_far.held.contains(j));
        let step = if j == so_far.at {
            lemma_due_comes(before, sent, first, so_far.at, so_far.held)
        } else {
            lemma_other_comes(before, sent, first, so_far.at, so_far.held, j)
        };
        assert(earlier.push(j) =~= order);
        lemma_progress_adds_up(
            buffer,
            sent,
            first,
            at,
            held,
            earlier,
            before,
            so_far,
            j,
            now,
            step,
        )
    };
    if held.len() + order.len() > buffer.capacity && progress.passed.len() == 0 {
        let i = progress.late[0];
        assert(progress.late.contains(i));
        lemma_accounted_for(buffer, sent, first, at, held, order, now, progress, i);
    }
    progress
}

/// What the header of a datagram says is what is known of its packet: the sequence
/// number is in its third and fourth byte and the timestamp in the four after
/// them, the highest byte first. A datagram that is no packet changes nothing.
pub proof fn lemma_what_is_read_of_a_datagram(
    buffer: SequenceBufferModel,
    bytes: Seq<u8>,
    sample_rate: usize,
)
    ensures
        ({
            let packet = parsed_packet(bytes, sample_rate);
            &&& packet.sequence_number == bytes[2] * 0x100 + bytes[3]
            &&& packet.timestamp.timestamp == bytes[4] * 0x100_0000 + bytes[5] * 0x1_0000 + bytes[6]
                * 0x100 + bytes[7]
            &&& packet.timestamp.sample_rate == sample_rate
            &&& packet.payload == payload_of(bytes)
        }),
        !is_rtp(bytes) ==> buffer.updated(bytes) == buffer,
        is_rtp(bytes) ==> buffer.updated(bytes) == buffer.after(
            parsed_packet(bytes, buffer.sample_rate),
        ),
{
}

/// The first packet is passed on at once, whatever its number, and the number that
/// follows is due then.
pub proof fn lemma_first_packet_passes(buffer: SequenceBufferModel, packet: PacketModel)
    requires
        buffer.next_seq is None,
    ensures
        ({
            let now = buffer.after(packet);
            &&& now.playout == buffer.playout.push(packet)
            &&& now.next_seq matches Some(due) && due == (packet.sequence_number + 1) % 65536
            &&& now.waiting == buffer.waiting
            &&& now.events == buffer.events
            &&& now.capacity == buffer.capacity
            &&& now.sample_rate == buffer.sample_rate
        }),
{
}

/// The packet that is due is passed on at once. Those that wait and follow it
/// without a gap are passed on behind it, and no others; those that are left wait
/// on, and the number after the last that was passed on is due. That is no event.
#[verifier::spinoff_prover]
#[verifier::rlimit(40)]
pub proof fn lemma_due_packet_lets_others_pass(
    buffer: SequenceBufferModel,
    packet: PacketModel,
    n: nat,
)
    requires
        buffer.next_seq == Some(packet.sequence_number),
        n <= buffer.waiting.len(),
        forall|i: int|
            0 <= i < n ==> (#[trigger] buffer.waiting[i]).sequence_number == (
            packet.sequence_number + 1 + i) % 65536,
        n < buffer.waiting.len() ==> buffer.waiting[n as int].sequence_number != (
        packet.sequence_number + 1 + n) % 65536,
    ensures
        ({
            let now = buffer.after(packet);
            &&& now.playout == buffer.playout.push(packet) + buffer.waiting.take(n as int)
            &&& now.waiting == buffer.waiting.skip(n as int)
            &&& now.next_seq matches Some(due) && due == (packet.sequence_number + 1 + n) % 65536
            &&& now.events == buffer.events
            &&& now.capacity == buffer.capacity
            &&& now.sample_rate == buffer.sample_rate
        }),
{
    let number = packet.sequence_number;
    let next = next_sequence_number(number);
    assert forall|i: int| 0 <= i < n implies (#[trigger] buffer.waiting[i]).sequence_number
        == number_after(next, i as nat) by {
        lemma_number_after_next(number, i as nat);
    }
    lemma_number_after_next(number, n);
    lemma_run_ends_at_the_gap(buffer.waiting, next, n);
}

proof fn lemma_number_after_next(number: u16, i: nat)
    ensures
        number_after(next_sequence_number(number), i) == (number + 1 + i) % 65536,
{
}

proof fn lemma_run_ends_at_the_gap(waiting: Seq<PacketModel>, number: u16, n: nat)
    requires
        n <= waiting.len(),
        forall|i: int|
            0 <= i < n ==> (#[trigger] waiting[i]).sequence_number == number_after(
                number,
                i as nat,
            ),
        n < waiting.len() ==> waiting[n as int].sequence_number != number_after(number, n),
    ensures
        in_sequence(waiting, number) == n,
    decreases n,
{
    assert(number_after(number, 0) == number);
    if n > 0 {
        let rest = waiting.drop_first();
        let next = next_sequence_number(number);
        assert(waiting[0].sequence_number == number);
        assert forall|i: int| 0 <= i < n - 1 implies (#[trigger] rest[i]).sequence_number
            == number_after(next, i as nat) by {
            assert(rest[i] == waiting[i + 1]);
            lemma_number_after_next(number, i as nat);
        }
        lemma_number_after_next(number, (n - 1) as nat);
        if n < waiting.len() {
            assert(rest[n - 1] == waiting[n as int]);
        }
        lemma_run_ends_at_the_gap(rest, next, (n - 1) as nat);
    }
}

/// A packet that is not due waits, as long as there is room: it stands behind those
/// that are due before it and before the first that is due later, and one with
/// the timestamp of a packet that waits already is left out. Nothing is passed
/// on, the same number stays due, and it is noted that a packet was out of order.
pub proof fn lemma_other_packets_wait(buffer: SequenceBufferModel, packet: PacketModel)
    requires
        buffer.next_seq is Some,
        buffer.next_seq != Some(packet.sequence_number),
        buffer.waiting.len() < buffer.capacity,
    ensures
        ({
            let now = buffer.after(packet);
            let known = exists|i: int|
                0 <= i < buffer.waiting.len() && (#[trigger] buffer.waiting[i]).timestamp.timestamp
                    == packet.timestamp.timestamp;
            &&& now.playout == buffer.playout
            &&& now.next_seq == buffer.next_seq
            &&& now.events == buffer.events.push(SequenceBufferEvent::OutOfOrderPacket)
            &&& now.capacity == buffer.capacity
            &&& now.sample_rate == buffer.sample_rate
            &&& known ==> now.waiting == buffer.waiting
            &&& !known ==> exists|k: int|
                0 <= k <= buffer.waiting.len() && now.waiting == #[trigger] buffer.waiting.insert(
                    k,
                    packet,
                ) && (forall|i: int|
                    0 <= i < k ==> distance(
                        (#[trigger] buffer.waiting[i]).timestamp.timestamp,
                        packet.timestamp.timestamp,
                    ) <= 0) && (k < buffer.waiting.len() ==> distance(
                    buffer.waiting[k].timestamp.timestamp,
                    packet.timestamp.timestamp,
                ) > 0)
        }),
{
    reveal(later);
    lemma_place(buffer.waiting, packet);
    let now = buffer.after(packet);
    if !is_waiting(buffer.waiting, packet) {
        let k = place(buffer.waiting, packet) as int;
        assert(now.waiting == buffer.waiting.insert(k, packet));
        assert forall|i: int| 0 <= i < k implies distance(
            (#[trigger] buffer.waiting[i]).timestamp.timestamp,
            packet.timestamp.timestamp,
        ) <= 0 by {
            assert(!later(buffer.waiting[i], packet));
        }
    }
}

/// Where there is no room for one more packet, the first of those that wait is no
/// longer held back. It is dropped where its number lies before the one that is
/// due, and then nothing is passed on and the same number stays due. Else it is
/// passed on, and the number that was due is given up. Both are noted: that a
/// packet was out of order, and then that one was dropped. There are never more
/// packets that wait than there is room for.
pub proof fn lemma_one_packet_too_many(
    buffer: SequenceBufferModel,
    packet: PacketModel,
    due: u16,
)
    requires
        buffer.next_seq == Some(due),
        due != packet.sequence_number,
        buffer.waiting.len() == buffer.capacity,
        forall|i: int|
            0 <= i < buffer.waiting.len() ==> (
            #[trigger] buffer.waiting[i]).timestamp.timestamp != packet.timestamp.timestamp,
    ensures
        ({
            let now = buffer.after(packet);
            let first = with_waiting(buffer.waiting, packet)[0];
            &&& first == packet || (buffer.waiting.len() > 0 && first == buffer.waiting[0])
            &&& now.waiting.len() <= buffer.capacity
            &&& now.events == buffer.events.push(SequenceBufferEvent::OutOfOrderPacket).push(
                SequenceBufferEvent::PacketDrop,
            )
            &&& now.capacity == buffer.capacity
            &&& now.sample_rate == buffer.sample_rate
            &&& 1 <= (due - first.sequence_number) % 65536 <= 32768 ==> {
                &&& now.playout == buffer.playout
                &&& now.next_seq == Some(due)
                &&& now.waiting == with_waiting(buffer.waiting, packet).skip(1)
            }
            &&& !(1 <= (due - first.sequence_number) % 65536 <= 32768) ==> {
                &&& now.playout.len() > buffer.playout.len()
                &&& now.playout[buffer.playout.len() as int] == first
                &&& now.next_seq matches Some(next) && next == (first.sequence_number
                    + now.playout.len() - buffer.playout.len()) % 65536
            }
        }),
{
    lemma_place(buffer.waiting, packet);
    let held = with_waiting(buffer.waiting, packet);
    assert(!is_waiting(buffer.waiting, packet));
    let first = held[0].sequence_number;
    lemma_in_sequence(held, first);
    let n = in_sequence(held, first);
    assert(held.drop_first() =~= held.skip(1));
    assert(n > 0);
}

} // verus!
