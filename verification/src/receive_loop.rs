//! What a receiver does with the packets that come to it, and what it tells
//! of them.

use crate::audio_buffer::{frames_in, slot, AudioBuffer};
use crate::descriptor::RxDescriptor;
use crate::format::ReceiverId;
use crate::matrix::OutputMatrix;
use crate::network::SocketAddress;
use crate::rtp::{is_rtp, payload_of};
use crate::status::{statuses, Receiver, ReceiverModel, Status, StatusModel};
use vstd::prelude::*;

verus! {

/// What can be configured of a receiver.
#[derive(Debug, Clone, Copy, PartialEq, Eq, Structural)]
pub enum RxConfig {
    LinkOffset(usize),
}

/// How much of a buffer is used, in percent. An empty buffer is not used.
pub open spec fn percentage(used: usize, available: usize) -> int {
    if available == 0 {
        0
    } else {
        (used * 100) / available as int
    }
}

/// What is published of a receiver at regular intervals.
pub open spec fn statistics(
    id: ReceiverId,
    usage: (usize, usize),
    dropped: usize,
    out_of_order: usize,
) -> Seq<StatusModel> {
    seq![
        StatusModel::Receiver(
            ReceiverModel::BufferUsage(
                id,
                usage.0,
                usage.1,
                percentage(usage.0, usage.1) as usize,
            ),
        ),
        StatusModel::Receiver(ReceiverModel::DroppedPackets(id, dropped)),
        StatusModel::Receiver(ReceiverModel::OutOfOrderPackets(id, out_of_order)),
    ]
}

/// The state of a receiver while it receives.
#[derive(Debug)]
pub struct ReceiveLoop {
    pub desc: RxDescriptor,
    pub min_buffer_usage: (usize, usize),
    pub out_of_order_packets: usize,
    pub dropped_packets: usize,
}

impl ReceiveLoop {
    /// A receiver that has received nothing yet.
    pub fn new(desc: RxDescriptor) -> (receive_loop: ReceiveLoop)
        ensures
            receive_loop.desc@ == desc@,
            receive_loop.min_buffer_usage == (0usize, 0usize),
            receive_loop.out_of_order_packets == 0,
            receive_loop.dropped_packets == 0,
    {
        ReceiveLoop { desc, min_buffer_usage: (0, 0), out_of_order_packets: 0, dropped_packets: 0 }
    }

    /// Whether a packet comes from the origin of the session. Packets of
    /// others are left out.
    pub fn comes_from_origin(&self, sender: SocketAddress) -> (accepted: bool)
        ensures
            accepted == (sender.ip == self.desc@.origin_ip),
    {
        sender.ip == self.desc.origin_ip
    }

    /// Takes a packet into the playout buffer, where it comes from the origin
    /// of the session. Tells whether it does.
    pub fn process_packet(
        &self,
        packet: &[u8],
        sender: SocketAddress,
        buffer: &AudioBuffer,
        memory: &mut [u8],
        numbers: &mut [u16],
        matrix: &OutputMatrix,
    ) -> (accepted: bool)
        requires
            buffer.usable(),
            buffer.lies_in(old(memory)@, old(numbers)@),
            matrix.wf(),
            sender.ip == self.desc@.origin_ip && is_rtp(packet@) ==> buffer.can_store(
                payload_of(packet@),
                self.desc@,
                matrix@,
            ),
        ensures
            accepted == (sender.ip == self.desc@.origin_ip),
            buffer.lies_in(final(memory)@, final(numbers)@),
            !(accepted && is_rtp(packet@)) ==> final(memory)@ == old(memory)@ && final(numbers)@
                == old(numbers)@,
            accepted && is_rtp(packet@) ==> forall|index: int|
                0 <= index < buffer.slots() ==> (
                    #[trigger] slot(final(memory)@, index),
                    final(numbers)@[index],
                ) == buffer.received(
                    old(memory)@,
                    old(numbers)@,
                    buffer.arrival(packet@, self.desc@),
                    matrix@.routes,
                    frames_in(payload_of(packet@), self.desc@),
                    index,
                ),
    {
        if self.comes_from_origin(sender) {
            buffer.insert(memory, numbers, packet, &self.desc, matrix);
            true
        } else {
            false
        }
    }

    /// What is published of the receiver. The counts start anew.
    pub fn report_statistics(&mut self) -> (report: Vec<Status>)
        requires
            old(self).min_buffer_usage.0 * 100 <= usize::MAX,
        ensures
            statuses(report@) == statistics(
                old(self).desc@.id,
                old(self).min_buffer_usage,
                old(self).dropped_packets,
                old(self).out_of_order_packets,
            ),
            final(self).desc@ == old(self).desc@,
            final(self).min_buffer_usage == old(self).min_buffer_usage,
            final(self).dropped_packets == 0,
            final(self).out_of_order_packets == 0,
    {
        let id = self.desc.id;
        let (used, available) = self.min_buffer_usage;
        let percent: usize = if available == 0 {
            0
        } else {
            (used * 100) / available
        };
        let report = vec![
            Status::Receiver(Receiver::BufferUsage(id, used, available, percent)),
            Status::Receiver(Receiver::DroppedPackets(id, self.dropped_packets)),
            Status::Receiver(Receiver::OutOfOrderPackets(id, self.out_of_order_packets)),
        ];
        assert(statuses(report@) =~= statistics(
            id,
            self.min_buffer_usage,
            self.dropped_packets,
            self.out_of_order_packets,
        ));
        self.dropped_packets = 0;
        self.out_of_order_packets = 0;
        report
    }
}

/// Where not more than the whole buffer is used, it is used to at most a
/// hundred percent.
pub proof fn lemma_percentage_is_at_most_hundred(used: usize, available: usize)
    requires
        used <= available,
    ensures
        0 <= percentage(used, available) <= 100,
{
    if available > 0 {
        assert(0 <= (used * 100) / available as int <= 100) by (nonlinear_arith)
            requires
                0 <= used <= available,
                available > 0,
        ;
    }
}

/// The percentage is rounded down: that part of the buffer is used, and one more
/// percent is not.
pub proof fn lemma_percentage_of_the_buffer(used: usize, available: usize, percent: int)
    requires
        available > 0,
    ensures
        percentage(used, available) * available <= used * 100,
        used * 100 < (percentage(used, available) + 1) * available,
        percent * available <= used * 100 < (percent + 1) * available ==> percentage(
            used,
            available,
        ) == percent,
        percentage(available, available) == 100,
        percentage(0, available) == 0,
        percentage(used, 0) == 0,
{
    let total = used * 100;
    let size = available as int;
    let quotient = total / size;
    vstd::arithmetic::div_mod::lemma_fundamental_div_mod(total, size);
    vstd::arithmetic::div_mod::lemma_mod_bound(total, size);
    assert(quotient * size <= total < (quotient + 1) * size) by (nonlinear_arith)
        requires
            total == size * quotient + total % size,
            0 <= total % size < size,
    ;
    if percent * size <= total < (percent + 1) * size {
        assert(percent == quotient) by (nonlinear_arith)
            requires
                percent * size <= total < (percent + 1) * size,
                quotient * size <= total < (quotient + 1) * size,
                size > 0,
        ;
    }
    assert((size * 100) / size == 100) by (nonlinear_arith)
        requires
            size > 0,
    ;
    assert(0int / size == 0) by (nonlinear_arith)
        requires
            size > 0,
    ;
}

/// What is published of a receiver: first how much of its buffer is used, of how
/// much, and what part that is; then how many packets were dropped, and how many
/// came out of order. All of it under the number of the receiver.
pub proof fn lemma_statistics_of_a_receiver(
    id: ReceiverId,
    used: usize,
    available: usize,
    dropped: usize,
    out_of_order: usize,
)
    requires
        used * 100 <= usize::MAX,
    ensures
        ({
            let report = statistics(id, (used, available), dropped, out_of_order);
            &&& report.len() == 3
            &&& report[0] matches StatusModel::Receiver(
                ReceiverModel::BufferUsage(receiver, full, size, percent),
            ) && receiver == id && full == used && size == available && percent == percentage(
                used,
                available,
            )
            &&& report[1] == StatusModel::Receiver(ReceiverModel::DroppedPackets(id, dropped))
            &&& report[2] == StatusModel::Receiver(
                ReceiverModel::OutOfOrderPackets(id, out_of_order),
            )
        }),
{
    if available > 0 {
        let total = used * 100;
        let size = available as int;
        assert(0 <= total / size <= total) by (nonlinear_arith)
            requires
                total >= 0,
                size > 0,
        ;
    }
}

} // verus!
