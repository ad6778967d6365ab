//! The sizes of packets and of the buffers that hold them.
//!
//! How many frames are in a packet, and how many frames or packets are due
//! within the link offset, depends on durations in fractions of milliseconds.
//! The functions here take these counts and derive the sizes from them.

use crate::format::SampleFormat;
use vstd::prelude::*;

verus! {

/// The bytes of the header of a packet, without contributing sources.
pub fn rtp_header_len() -> (bytes: usize)
    ensures
        bytes == 12,
{
    12
}

pub fn max_samplerate() -> (rate: usize)
    ensures
        rate == 96000,
{
    96000
}

pub fn max_bit_depth() -> (bits: usize)
    ensures
        bits == 32,
{
    32
}

pub fn bytes_per_sample(bit_depth: usize) -> (bytes: usize)
    ensures
        bytes == bit_depth / 8,
{
    bit_depth / 8
}

pub fn bytes_per_frame(channels: usize, sample_format: SampleFormat) -> (bytes: usize)
    requires
        channels * sample_format.width() <= usize::MAX,
    ensures
        bytes == channels * sample_format.width(),
{
    channels * sample_format.bytes_per_sample()
}

pub fn samples_per_packet(channels: usize, frames_per_packet: usize) -> (samples: usize)
    requires
        channels * frames_per_packet <= usize::MAX,
    ensures
        samples == channels * frames_per_packet,
{
    channels * frames_per_packet
}

/// The samples of `frames` frames, those that are due within the link offset.
pub fn samples_per_link_offset_buffer(channels: usize, frames: usize) -> (samples: usize)
    requires
        channels * frames <= usize::MAX,
    ensures
        samples == channels * frames,
{
    channels * frames
}

/// The bytes of `frames` frames, those that are due within the link offset.
pub fn link_offset_buffer_size(
    channels: usize,
    frames: usize,
    sample_format: SampleFormat,
) -> (bytes: usize)
    requires
        channels * frames <= usize::MAX,
        channels * frames * sample_format.width() <= usize::MAX,
    ensures
        bytes == channels * frames * sample_format.width(),
{
    samples_per_link_offset_buffer(channels, frames) * sample_format.bytes_per_sample()
}

/// The bytes of the payload of a packet.
pub fn rtp_payload_size(
    frames_per_packet: usize,
    channels: usize,
    sample_format: SampleFormat,
) -> (bytes: usize)
    requires
        channels * sample_format.width() <= usize::MAX,
        frames_per_packet * (channels * sample_format.width()) <= usize::MAX,
    ensures
        bytes == frames_per_packet * (channels * sample_format.width()),
{
    frames_per_packet * bytes_per_frame(channels, sample_format)
}

/// The bytes of a packet.
pub fn rtp_packet_size(
    frames_per_packet: usize,
    channels: usize,
    sample_format: SampleFormat,
) -> (bytes: usize)
    requires
        channels * sample_format.width() <= usize::MAX,
        12 + frames_per_packet * (channels * sample_format.width()) <= usize::MAX,
    ensures
        bytes == 12 + frames_per_packet * (channels * sample_format.width()),
{
    rtp_header_len() + rtp_payload_size(frames_per_packet, channels, sample_format)
}

/// The bytes of `packets` packets, those that are due within the link offset.
pub fn rtp_buffer_size(
    packets: usize,
    frames_per_packet: usize,
    channels: usize,
    sample_format: SampleFormat,
) -> (bytes: usize)
    requires
        channels * sample_format.width() <= usize::MAX,
        12 + frames_per_packet * (channels * sample_format.width()) <= usize::MAX,
        packets * (12 + frames_per_packet * (channels * sample_format.width())) <= usize::MAX,
    ensures
        bytes == packets * (12 + frames_per_packet * (channels * sample_format.width())),
{
    packets * rtp_packet_size(frames_per_packet, channels, sample_format)
}

/// A value for each index below `size`.
pub fn init_buffer<T>(size: usize, init: impl Fn(usize) -> T) -> (buffer: Vec<T>)
    requires
        forall|i: usize| i < size ==> call_requires(init, (i,)),
    ensures
        buffer@.len() == size,
        forall|i: usize| i < size ==> call_ensures(init, (i,), #[trigger] buffer@[i as int]),
{
    let mut values: Vec<T> = Vec::new();
    let mut i: usize = 0;
    while i < size
        invariant
            i <= size,
            values@.len() == i,
            forall|k: usize| k < size ==> call_requires(init, (k,)),
            forall|k: usize| k < i ==> call_ensures(init, (k,), #[trigger] values@[k as int]),
        decreases size - i,
    {
        values.push(init(i));
        i = i + 1;
    }
    values
}

} // verus!
