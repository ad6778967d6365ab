//! RTP packets and their sequence numbers.

use rtp_rs::RtpReader;
use vstd::prelude::*;

verus! {

/// What the library uses of an RTP packet.
#[derive(Debug)]
pub struct RtpPacket {
    pub sequence_number: u16,
    pub timestamp: u32,
    pub payload: Vec<u8>,
}

/// The end of the fixed header and the contributing sources.
pub open spec fn sources_end(packet: Seq<u8>) -> int {
    12 + 4 * (packet[0] & 0x0f)
}

/// Where the payload starts: after the sources and the header extension.
pub open spec fn payload_start(packet: Seq<u8>) -> int {
    let end = sources_end(packet);
    if packet[0] & 0x10 != 0 {
        end + 4 + 4 * (packet[end + 2] * 256 + packet[end + 3])
    } else {
        end
    }
}

/// The number of padding bytes at the end of the packet.
pub open spec fn padding_len(packet: Seq<u8>) -> int {
    if packet[0] & 0x20 != 0 {
        packet.last() as int
    } else {
        0
    }
}

/// Whether the bytes are an RTP packet of version 2 that holds all of the
/// header that it announces, and padding that fits behind the header.
pub open spec fn is_rtp(packet: Seq<u8>) -> bool {
    &&& packet.len() >= 12
    &&& (packet[0] & 0xc0) >> 6 == 2
    &&& packet[0] & 0x10 != 0 ==> sources_end(packet) + 4 <= packet.len()
    &&& payload_start(packet) <= packet.len()
    &&& packet[0] & 0x20 != 0 ==> {
        &&& packet.last() != 0
        &&& payload_start(packet) + packet.last() <= packet.len()
    }
}

/// The sequence number in the header.
pub open spec fn header_sequence_number(packet: Seq<u8>) -> int {
    packet[2] * 256 + packet[3]
}

/// The timestamp in the header.
pub open spec fn header_timestamp(packet: Seq<u8>) -> int {
    packet[4] * 0x1000000 + packet[5] * 0x10000 + packet[6] * 0x100 + packet[7]
}

/// What stands between the header and the padding.
pub open spec fn payload_of(packet: Seq<u8>) -> Seq<u8> {
    packet.subrange(payload_start(packet), packet.len() - padding_len(packet))
}

/// The sequence number that follows, which is 0 after the largest one.
pub open spec fn next_sequence_number(number: u16) -> u16 {
    if number == u16::MAX {
        0
    } else {
        (number + 1) as u16
    }
}

/// Whether a sequence number lies before the one that is due. Numbers wrap, so
/// one of them is before the other on the shorter way around.
pub open spec fn outdated(number: u16, due: u16) -> bool {
    0 < (due - number) % 65536 <= 32768
}

/// Whether a sequence number lies before the one that is due.
pub fn is_outdated(number: u16, due: u16) -> (before: bool)
    ensures
        before == outdated(number, due),
{
    let behind: u16 = due.wrapping_sub(number);
    0 < behind && behind <= 0x8000
}

/// Reads a packet with `rtp_rs::RtpReader`. The claim is that `RtpReader::new`
/// takes exactly the byte sequences that `is_rtp` describes, and that
/// `sequence_number`, `timestamp` and `payload` give what stands in the header
/// in network byte order and the bytes between the header and the padding.
#[verifier::external_body]
pub(crate) fn read_rtp(packet: &[u8]) -> (read: Option<RtpPacket>)
    ensures
        read is Some <==> is_rtp(packet@),
        read matches Some(rtp) ==> {
            &&& rtp.sequence_number == header_sequence_number(packet@)
            &&& rtp.timestamp == header_timestamp(packet@)
            &&& rtp.payload@ == payload_of(packet@)
        },
{
    let rtp = RtpReader::new(packet).ok()?;
    Some(RtpPacket {
        sequence_number: rtp.sequence_number().into(),
        timestamp: rtp.timestamp(),
        payload: rtp.payload().to_vec(),
    })
}

/// Calls `rtp_rs::Seq::next`. The claim is that it adds one and wraps from the
/// largest 16 bit number to 0.
#[verifier::external_body]
pub(crate) fn sequence_number_after(number: u16) -> (next: u16)
    ensures
        next == next_sequence_number(number),
{
    rtp_rs::Seq::from(number).next().into()
}

/// Calls `rtp_rs::Seq::precedes`. The claim is that it holds exactly where the
/// second number is the one that follows the first.
#[verifier::external_body]
pub(crate) fn precedes(number: u16, other: u16) -> (precedes: bool)
    ensures
        precedes == (other == next_sequence_number(number)),
{
    rtp_rs::Seq::from(number).precedes(rtp_rs::Seq::from(other))
}

/// The number that follows is one larger, and 0 after 65535. Each number follows
/// exactly one other.
pub proof fn lemma_numbers_follow_each_other(number: u16, other: u16)
    ensures
        next_sequence_number(number) == (number + 1) % 65536,
        next_sequence_number(number) == next_sequence_number(other) <==> number == other,
{
}

/// A number lies before the one that is due where at most half as many steps as
/// there are numbers lead from it to the latter, and at least one. Of two
/// different numbers one lies before the other, and both do where they are
/// exactly half of all numbers apart.
pub proof fn lemma_outdated_numbers_lie_behind(number: u16, due: u16, steps: nat)
    requires
        steps < 65536,
        due == (number + steps) % 65536,
    ensures
        outdated(number, due) <==> 1 <= steps <= 32768,
        outdated(due, number) <==> steps >= 32768,
{
}

} // verus!
