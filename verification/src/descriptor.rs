//! The description of a receiver.

use crate::duration::Millis;
use crate::format::{AudioFormat, FrameFormat, ReceiverId, SampleFormat};
use crate::network::IpAddress;
use crate::sizes;
use crate::text::{decimal, decimal_text, lemma_decimal_digits, lemma_decimal_value};
use vstd::prelude::*;

verus! {

/// What a receiver receives.
#[derive(Debug)]
pub struct RxDescriptor {
    pub id: ReceiverId,
    pub session_name: String,
    pub session_id: u64,
    pub session_version: u64,
    pub bit_depth: usize,
    pub channels: usize,
    pub sampling_rate: usize,
    pub packet_time: Millis,
    pub link_offset: Millis,
    pub origin_ip: IpAddress,
    pub rtp_offset: u32,
}

/// The mathematical value of an `RxDescriptor`.
pub struct DescriptorModel {
    pub id: ReceiverId,
    pub session_name: Seq<char>,
    pub session_id: u64,
    pub session_version: u64,
    pub bit_depth: usize,
    pub channels: usize,
    pub sampling_rate: usize,
    pub packet_time: Millis,
    pub link_offset: Millis,
    pub origin_ip: IpAddress,
    pub rtp_offset: u32,
}

impl View for RxDescriptor {
    type V = DescriptorModel;

    open spec fn view(&self) -> DescriptorModel {
        DescriptorModel {
            id: self.id,
            session_name: self.session_name@,
            session_id: self.session_id,
            session_version: self.session_version,
            bit_depth: self.bit_depth,
            channels: self.channels,
            sampling_rate: self.sampling_rate,
            packet_time: self.packet_time,
            link_offset: self.link_offset,
            origin_ip: self.origin_ip,
            rtp_offset: self.rtp_offset,
        }
    }
}

impl Clone for RxDescriptor {
    fn clone(&self) -> (copy: Self)
        ensures
            copy@ == self@,
    {
        RxDescriptor {
            id: self.id,
            session_name: self.session_name.clone(),
            session_id: self.session_id,
            session_version: self.session_version,
            bit_depth: self.bit_depth,
            channels: self.channels,
            sampling_rate: self.sampling_rate,
            packet_time: self.packet_time,
            link_offset: self.link_offset,
            origin_ip: self.origin_ip,
            rtp_offset: self.rtp_offset,
        }
    }
}

impl DescriptorModel {
    /// The bytes of one sample in a packet.
    pub open spec fn sample_bytes(self) -> nat {
        self.bit_depth as nat / 8
    }

    /// The bytes of one frame in a packet.
    pub open spec fn frame_bytes(self) -> nat {
        self.channels as nat * self.sample_bytes()
    }

    /// The sample format that has the bit depth.
    pub open spec fn sample_format(self) -> Option<SampleFormat> {
        if self.bit_depth == 16 {
            Some(SampleFormat::L16)
        } else if self.bit_depth == 24 {
            Some(SampleFormat::L24)
        } else {
            None
        }
    }

    /// The format of a frame in a packet.
    pub open spec fn frame_format(self) -> Option<FrameFormat> {
        match self.sample_format() {
            Some(sample_format) => Some(FrameFormat { channels: self.channels, sample_format }),
            None => None,
        }
    }

    /// The format of what is received.
    pub open spec fn audio_format(self) -> Option<AudioFormat> {
        match self.frame_format() {
            Some(frame_format) => Some(
                AudioFormat { sample_rate: self.sampling_rate, frame_format },
            ),
            None => None,
        }
    }
}

/// The text that identifies a version of a session.
pub open spec fn session_text(id: u64, version: u64) -> Seq<char> {
    decimal(id as nat) + " "@ + decimal(version as nat)
}

/// Writes the text that identifies a version of a session.
pub fn session_id_text(id: u64, version: u64) -> (text: String)
    ensures
        text@ == session_text(id, version),
{
    let mut text = decimal_text(id);
    text.append(" ");
    text.append(decimal_text(version).as_str());
    text
}

/// No two versions of sessions have the same text.
pub proof fn lemma_session_text_identifies(id: u64, version: u64, other: u64, other_version: u64)
    requires
        session_text(id, version) == session_text(other, other_version),
    ensures
        id == other,
        version == other_version,
{
    reveal_strlit(" ");
    let a = decimal(id as nat);
    let b = decimal(other as nat);
    let v = decimal(version as nat);
    let w = decimal(other_version as nat);
    let text = session_text(id, version);
    let same = session_text(other, other_version);
    lemma_decimal_digits(id as nat);
    lemma_decimal_digits(other as nat);
    assert(text[a.len() as int] == ' ');
    assert(same[b.len() as int] == ' ');
    if a.len() < b.len() {
        assert(same[a.len() as int] == b[a.len() as int]);
    }
    if b.len() < a.len() {
        assert(text[b.len() as int] == a[b.len() as int]);
    }
    assert(a =~= text.take(a.len() as int));
    assert(b =~= same.take(b.len() as int));
    assert(v =~= text.skip(a.len() as int + 1));
    assert(w =~= same.skip(b.len() as int + 1));
    lemma_decimal_value(id as nat);
    lemma_decimal_value(other as nat);
    lemma_decimal_value(version as nat);
    lemma_decimal_value(other_version as nat);
}

impl RxDescriptor {
    /// The bytes of one sample in a packet.
    pub fn bytes_per_sample(&self) -> (bytes: usize)
        ensures
            bytes == self@.sample_bytes(),
    {
        sizes::bytes_per_sample(self.bit_depth)
    }

    /// The bytes of one frame in a packet.
    pub fn bytes_per_frame(&self) -> (bytes: usize)
        requires
            self@.frame_bytes() <= usize::MAX,
        ensures
            bytes == self@.frame_bytes(),
    {
        self.channels * self.bytes_per_sample()
    }

    /// How samples are laid out in a packet, where the bit depth is one of
    /// those that can be played out.
    pub fn sample_format(&self) -> (format: Option<SampleFormat>)
        ensures
            format == self@.sample_format(),
    {
        if self.bit_depth == 16 {
            Some(SampleFormat::L16)
        } else if self.bit_depth == 24 {
            Some(SampleFormat::L24)
        } else {
            None
        }
    }

    /// The format of a frame in a packet.
    pub fn frame_format(&self) -> (format: Option<FrameFormat>)
        ensures
            format == self@.frame_format(),
    {
        match self.sample_format() {
            Some(sample_format) => Some(FrameFormat { channels: self.channels, sample_format }),
            None => None,
        }
    }

    /// The format of what is received.
    pub fn audio_format(&self) -> (format: Option<AudioFormat>)
        ensures
            format == self@.audio_format(),
    {
        match self.frame_format() {
            Some(frame_format) => Some(
                AudioFormat { sample_rate: self.sampling_rate, frame_format },
            ),
            None => None,
        }
    }

    /// The samples of a packet of `frames_per_packet` frames.
    pub fn samples_per_packet(&self, frames_per_packet: usize) -> (samples: usize)
        requires
            self.channels * frames_per_packet <= usize::MAX,
        ensures
            samples == self.channels * frames_per_packet,
    {
        sizes::samples_per_packet(self.channels, frames_per_packet)
    }

    /// The samples of `frames` frames, those that are due within the link offset.
    pub fn samples_per_link_offset_buffer(&self, frames: usize) -> (samples: usize)
        requires
            self.channels * frames <= usize::MAX,
        ensures
            samples == self.channels * frames,
    {
        sizes::samples_per_link_offset_buffer(self.channels, frames)
    }

    /// The bytes of `frames` frames, those that are due within the link offset.
    pub fn link_offset_buffer_size(&self, frames: usize) -> (bytes: usize)
        requires
            self.channels * frames <= usize::MAX,
            self.channels * frames * self@.sample_bytes() <= usize::MAX,
        ensures
            bytes == self.channels * frames * self@.sample_bytes(),
    {
        self.samples_per_link_offset_buffer(frames) * self.bytes_per_sample()
    }

    /// The bytes of the payload of a packet of `frames_per_packet` frames.
    pub fn rtp_payload_size(&self, frames_per_packet: usize) -> (bytes: usize)
        requires
            self@.frame_bytes() <= usize::MAX,
            frames_per_packet * self@.frame_bytes() <= usize::MAX,
        ensures
            bytes == frames_per_packet * self@.frame_bytes(),
    {
        frames_per_packet * self.bytes_per_frame()
    }

    /// The bytes of a packet of `frames_per_packet` frames.
    pub fn rtp_packet_size(&self, frames_per_packet: usize) -> (bytes: usize)
        requires
            self@.frame_bytes() <= usize::MAX,
            12 + frames_per_packet * self@.frame_bytes() <= usize::MAX,
        ensures
            bytes == 12 + frames_per_packet * self@.frame_bytes(),
    {
        sizes::rtp_header_len() + self.rtp_payload_size(frames_per_packet)
    }

    /// The bytes of `packets` packets, those that are due within the link offset.
    pub fn rtp_buffer_size(&self, packets: usize, frames_per_packet: usize) -> (bytes: usize)
        requires
            self@.frame_bytes() <= usize::MAX,
            12 + frames_per_packet * self@.frame_bytes() <= usize::MAX,
            packets * (12 + frames_per_packet * self@.frame_bytes()) <= usize::MAX,
        ensures
            bytes == packets * (12 + frames_per_packet * self@.frame_bytes()),
    {
        packets * self.rtp_packet_size(frames_per_packet)
    }

    /// The text that identifies a session: its number and its version.
    pub fn session_id(&self) -> (id: String)
        ensures
            id@ == session_text(self.session_id, self.session_version),
    {
        session_id_text(self.session_id, self.session_version)
    }
}

/// A bit depth can be played out where a linear sample format has as many bits:
/// 16 or 24. The frame then has the channels of the receiver and the stream its
/// sampling rate. No other bit depth has a format.
pub proof fn lemma_format_of_a_bit_depth(desc: DescriptorModel)
    ensures
        desc.sample_format() matches Some(format) ==> {
            &&& format != SampleFormat::Internal
            &&& format.width() * 8 == desc.bit_depth
            &&& format.width() == desc.sample_bytes()
        },
        desc.sample_format() is Some <==> desc.bit_depth == 16 || desc.bit_depth == 24,
        desc.frame_format() is Some <==> desc.sample_format() is Some,
        desc.frame_format() matches Some(frame) ==> {
            &&& frame.channels == desc.channels
            &&& Some(frame.sample_format) == desc.sample_format()
            &&& frame.frame_bytes() == desc.frame_bytes()
        },
        desc.audio_format() is Some <==> desc.frame_format() is Some,
        desc.audio_format() matches Some(audio) ==> audio.sample_rate == desc.sampling_rate && Some(
            audio.frame_format,
        ) == desc.frame_format(),
{
}

/// A sample has as many whole bytes as its bits fill, and a frame has a sample
/// for each channel.
pub proof fn lemma_sizes_of_samples_and_frames(desc: DescriptorModel)
    ensures
        8 * desc.sample_bytes() <= desc.bit_depth < 8 * desc.sample_bytes() + 8,
        desc.frame_bytes() == desc.channels * desc.sample_bytes(),
        desc.channels == 0 ==> desc.frame_bytes() == 0,
        desc.channels == 1 ==> desc.frame_bytes() == desc.sample_bytes(),
{
}

/// The text of a session is its number, a space, and its version.
pub proof fn lemma_session_text_is_number_and_version(id: u64, version: u64)
    ensures
        ({
            let text = session_text(id, version);
            let n = decimal(id as nat).len() as int;
            &&& text.take(n) == decimal(id as nat)
            &&& text[n] == ' '
            &&& text.skip(n + 1) == decimal(version as nat)
        }),
{
    reveal_strlit(" ");
    let text = session_text(id, version);
    let n = decimal(id as nat).len() as int;
    assert(text.take(n) =~= decimal(id as nat));
    assert(text.skip(n + 1) =~= decimal(version as nat));
}

} // verus!
