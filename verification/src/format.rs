//! Sample, frame and buffer formats, and the internal sample format in which
//! a playout buffer holds what was received.

use crate::descriptor::RxDescriptor;
use crate::error::RxError;
use crate::text::same_text;
use vstd::prelude::*;

verus! {

/// Identifies a receiver.
pub type ReceiverId = usize;

/// Identifies a transmitter.
pub type TransmitterId = usize;

/// How one sample is laid out in memory.
#[derive(Debug, Clone, Copy, PartialEq, Eq, Hash, Structural)]
pub enum SampleFormat {
    /// Two bytes, big endian, two's complement.
    L16,
    /// Three bytes, big endian, two's complement.
    L24,
    /// One byte of metadata, then a sample of either of the other formats,
    /// aligned to the end.
    Internal,
}

/// The sign and the magnitude that a sample has relative to full scale:
/// `numerator / denominator` lies between -1 and 1.
#[derive(Debug, Clone, Copy, PartialEq, Eq, Structural)]
pub struct SampleRatio {
    pub numerator: i32,
    pub denominator: i32,
}

/// The two's complement value of a 16 bit number.
pub open spec fn value_of_16_bits(b0: u8, b1: u8) -> int {
    let raw = b0 * 256 + b1;
    if raw >= 0x8000 {
        raw - 0x10000
    } else {
        raw
    }
}

/// The two's complement value of a 24 bit number.
pub open spec fn value_of_24_bits(b0: u8, b1: u8, b2: u8) -> int {
    let raw = b0 * 65536 + b1 * 256 + b2;
    if raw >= 0x800000 {
        raw - 0x1000000
    } else {
        raw
    }
}

/// The value of a linear sample as a fraction of the largest value of its
/// format. The most negative value is taken for its neighbour, so that the
/// range is symmetric.
pub open spec fn ratio_of(value: int, largest: int) -> SampleRatio {
    SampleRatio {
        numerator: (if value >= 0 { value } else { value + 1 }) as i32,
        denominator: largest as i32,
    }
}

/// What `to_internal_format` leaves in the four bytes of a slot.
pub open spec fn internal_bytes(source: Seq<u8>, before: Seq<u8>) -> Seq<u8> {
    if source.len() == 2 {
        seq![0x40u8, before[1], source[0], source[1]]
    } else {
        seq![0u8, source[0], source[1], source[2]]
    }
}

impl SampleFormat {
    /// The number of bytes of one sample.
    pub open spec fn width(self) -> nat {
        match self {
            SampleFormat::L16 => 2,
            SampleFormat::L24 => 3,
            SampleFormat::Internal => 4,
        }
    }

    /// Whether `bytes` holds enough bytes to read a sample of this format
    /// from its start.
    pub open spec fn holds_sample(self, bytes: Seq<u8>) -> bool {
        match self {
            SampleFormat::Internal => {
                &&& bytes.len() > 0
                &&& bytes[0].consumed() || bytes[0].muted() || bytes.len() >= 4
            },
            _ => bytes.len() >= self.width(),
        }
    }

    /// The value of the sample at the start of `bytes`; `None` for an internal
    /// sample that was consumed.
    pub open spec fn value_in(self, bytes: Seq<u8>) -> Option<int> {
        match self {
            SampleFormat::L16 => Some(value_of_16_bits(bytes[0], bytes[1])),
            SampleFormat::L24 => Some(value_of_24_bits(bytes[0], bytes[1], bytes[2])),
            SampleFormat::Internal => {
                if bytes[0].consumed() {
                    None
                } else if bytes[0].muted() {
                    Some(0)
                } else if bytes[0].tagged_format() == SampleFormat::L16 {
                    Some(value_of_16_bits(bytes[2], bytes[3]))
                } else {
                    Some(value_of_24_bits(bytes[1], bytes[2], bytes[3]))
                }
            },
        }
    }

    /// The sample at the start of `bytes` relative to full scale.
    pub open spec fn ratio_in(self, bytes: Seq<u8>) -> Option<SampleRatio> {
        match self {
            SampleFormat::L16 => Some(ratio_of(value_of_16_bits(bytes[0], bytes[1]), 0x7fff)),
            SampleFormat::L24 => Some(
                ratio_of(value_of_24_bits(bytes[0], bytes[1], bytes[2]), 0x7fffff),
            ),
            SampleFormat::Internal => {
                if bytes[0].consumed() {
                    None
                } else if bytes[0].muted() {
                    Some(SampleRatio { numerator: 0, denominator: 1 })
                } else if bytes[0].tagged_format() == SampleFormat::L16 {
                    Some(ratio_of(value_of_16_bits(bytes[2], bytes[3]), 0x7fff))
                } else {
                    Some(ratio_of(value_of_24_bits(bytes[1], bytes[2], bytes[3]), 0x7fffff))
                }
            },
        }
    }

    /// The format of that name. Only `L24` can be asked for by name.
    pub fn from_str(s: &str) -> (format: Result<SampleFormat, RxError>)
        ensures
            format is Ok <==> s@ == "L24"@,
            format matches Ok(f) ==> f == SampleFormat::L24,
            format matches Err(e) ==> e@ == crate::error::RxErrorModel::UnknownSampleFormat(s@),
    {
        if same_text(s, "L24") {
            Ok(SampleFormat::L24)
        } else {
            Err(RxError::UnknownSampleFormat(s.to_owned()))
        }
    }

    /// The number of bytes of one sample.
    pub fn bytes_per_sample(&self) -> (bytes: usize)
        ensures
            bytes == self.width(),
    {
        match self {
            SampleFormat::L16 => 2,
            SampleFormat::L24 => 3,
            SampleFormat::Internal => 4,
        }
    }

    /// Puts a linear sample into a slot of the internal format and resets the
    /// metadata of the slot. Where the sample has two bytes, the byte before
    /// them keeps what it held.
    pub fn to_internal_format(source: &[u8], target: &mut [u8])
        requires
            source@.len() == 2 || source@.len() == 3,
            old(target)@.len() == 4,
        ensures
            final(target)@ == internal_bytes(source@, old(target)@),
    {
        target[0] = 0u8;
        if source.len() == 2 {
            target[0].set_format(SampleFormat::L16);
            target[2] = source[0];
            target[3] = source[1];
            proof {
                assert(0u8 | 0b0100_0000 == 0x40u8) by (bit_vector);
            }
        } else {
            target[1] = source[0];
            target[2] = source[1];
            target[3] = source[2];
        }
        assert(target@ =~= internal_bytes(source@, old(target)@));
    }

    /// The value of the sample at the start of `buffer`.
    pub fn read_i32(&self, buffer: &[u8]) -> (value: Option<i32>)
        requires
            self.holds_sample(buffer@),
        ensures
            value is Some <==> self.value_in(buffer@) is Some,
            value matches Some(v) ==> self.value_in(buffer@) == Some(v as int),
    {
        match self {
            SampleFormat::L16 => Some(bytes_to_i32_2_bytes(buffer)),
            SampleFormat::L24 => Some(bytes_to_i32_3_bytes(buffer)),
            SampleFormat::Internal => internal_bytes_to_i32(buffer),
        }
    }

    /// The sample at the start of `buffer` relative to full scale.
    pub fn read_ratio(&self, buffer: &[u8]) -> (ratio: Option<SampleRatio>)
        requires
            self.holds_sample(buffer@),
        ensures
            ratio == self.ratio_in(buffer@),
    {
        match self {
            SampleFormat::L16 => Some(bytes_to_ratio_2_bytes(buffer)),
            SampleFormat::L24 => Some(bytes_to_ratio_3_bytes(buffer)),
            SampleFormat::Internal => internal_bytes_to_ratio(buffer),
        }
    }
}

/// Reads samples of type `S` out of memory.
pub trait SampleReader<S> {
    /// Whether a sample can be read from the start of `bytes`.
    spec fn readable(&self, bytes: Seq<u8>) -> bool;

    /// The sample at the start of `bytes`.
    spec fn sample_in(&self, bytes: Seq<u8>) -> Option<S>;

    /// The sample that stands for silence.
    spec fn silence(&self) -> S;

    fn read_sample(&self, buffer: &[u8]) -> (sample: Option<S>)
        requires
            self.readable(buffer@),
        ensures
            sample == self.sample_in(buffer@),
    ;

    fn silent_sample(&self) -> (sample: S)
        ensures
            sample == self.silence(),
    ;
}

impl SampleReader<i32> for SampleFormat {
    open spec fn readable(&self, bytes: Seq<u8>) -> bool {
        self.holds_sample(bytes)
    }

    open spec fn sample_in(&self, bytes: Seq<u8>) -> Option<i32> {
        match self.value_in(bytes) {
            Some(value) => Some(value as i32),
            None => None,
        }
    }

    open spec fn silence(&self) -> i32 {
        0
    }

    fn read_sample(&self, buffer: &[u8]) -> (sample: Option<i32>) {
        self.read_i32(buffer)
    }

    fn silent_sample(&self) -> (sample: i32) {
        0
    }
}

impl SampleReader<SampleRatio> for SampleFormat {
    open spec fn readable(&self, bytes: Seq<u8>) -> bool {
        self.holds_sample(bytes)
    }

    open spec fn sample_in(&self, bytes: Seq<u8>) -> Option<SampleRatio> {
        self.ratio_in(bytes)
    }

    open spec fn silence(&self) -> SampleRatio {
        SampleRatio { numerator: 0, denominator: 1 }
    }

    fn read_sample(&self, buffer: &[u8]) -> (sample: Option<SampleRatio>) {
        self.read_ratio(buffer)
    }

    fn silent_sample(&self) -> (sample: SampleRatio) {
        SampleRatio { numerator: 0, denominator: 1 }
    }
}

fn internal_bytes_to_ratio(bytes: &[u8]) -> (ratio: Option<SampleRatio>)
    requires
        SampleFormat::Internal.holds_sample(bytes@),
    ensures
        ratio == SampleFormat::Internal.ratio_in(bytes@),
{
    if bytes[0].is_consumed() {
        return None;
    }
    if bytes[0].is_muted() {
        return Some(SampleRatio { numerator: 0, denominator: 1 });
    }
    if bytes[0].get_format() == SampleFormat::L16 {
        Some(bytes_to_ratio_2_bytes(&bytes[2..4]))
    } else {
        Some(bytes_to_ratio_3_bytes(&bytes[1..4]))
    }
}

fn internal_bytes_to_i32(bytes: &[u8]) -> (value: Option<i32>)
    requires
        SampleFormat::Internal.holds_sample(bytes@),
    ensures
        value is Some <==> SampleFormat::Internal.value_in(bytes@) is Some,
        value matches Some(v) ==> SampleFormat::Internal.value_in(bytes@) == Some(v as int),
{
    if bytes[0].is_consumed() {
        return None;
    }
    if bytes[0].is_muted() {
        return Some(0);
    }
    if bytes[0].get_format() == SampleFormat::L16 {
        Some(bytes_to_i32_2_bytes(&bytes[2..4]))
    } else {
        Some(bytes_to_i32_3_bytes(&bytes[1..4]))
    }
}

fn bytes_to_ratio_2_bytes(bytes: &[u8]) -> (ratio: SampleRatio)
    requires
        bytes@.len() >= 2,
    ensures
        ratio == ratio_of(value_of_16_bits(bytes@[0], bytes@[1]), 0x7fff),
{
    let value = bytes_to_i32_2_bytes(bytes);
    if value >= 0 {
        SampleRatio { numerator: value, denominator: 0x7fff }
    } else {
        SampleRatio { numerator: value + 1, denominator: 0x7fff }
    }
}

fn bytes_to_i32_2_bytes(bytes: &[u8]) -> (value: i32)
    requires
        bytes@.len() >= 2,
    ensures
        value == value_of_16_bits(bytes@[0], bytes@[1]),
{
    let raw: i32 = bytes[0] as i32 * 256 + bytes[1] as i32;
    if raw >= 0x8000 {
        raw - 0x10000
    } else {
        raw
    }
}

fn bytes_to_ratio_3_bytes(bytes: &[u8]) -> (ratio: SampleRatio)
    requires
        bytes@.len() >= 3,
    ensures
        ratio == ratio_of(value_of_24_bits(bytes@[0], bytes@[1], bytes@[2]), 0x7fffff),
{
    let value = bytes_to_i32_3_bytes(bytes);
    if value >= 0 {
        SampleRatio { numerator: value, denominator: 0x7fffff }
    } else {
        SampleRatio { numerator: value + 1, denominator: 0x7fffff }
    }
}

fn bytes_to_i32_3_bytes(bytes: &[u8]) -> (value: i32)
    requires
        bytes@.len() >= 3,
    ensures
        value == value_of_24_bits(bytes@[0], bytes@[1], bytes@[2]),
{
    let raw: i32 = bytes[0] as i32 * 65536 + bytes[1] as i32 * 256 + bytes[2] as i32;
    // sign extend from 24 bits
    if raw >= 0x800000 {
        raw - 0x1000000
    } else {
        raw
    }
}

/// The metadata that accompanies a sample of the internal format.
pub trait SampleMetadata {
    spec fn consumed(&self) -> bool;

    spec fn tagged_format(&self) -> SampleFormat;

    spec fn muted(&self) -> bool;

    spec fn phase_inverted(&self) -> bool;

    spec fn disabled(&self) -> bool;

    fn is_consumed(&self) -> (consumed: bool)
        ensures
            consumed == self.consumed(),
    ;

    fn set_consumed(&mut self, consumed: bool)
        ensures
            final(self).consumed() == consumed,
            final(self).tagged_format() == old(self).tagged_format(),
            final(self).muted() == old(self).muted(),
            final(self).phase_inverted() == old(self).phase_inverted(),
            final(self).disabled() == old(self).disabled(),
    ;

    fn get_format(&self) -> (format: SampleFormat)
        ensures
            format == self.tagged_format(),
    ;

    /// Tags the sample as two bytes wide for `L16`, as three bytes wide for
    /// any other format.
    fn set_format(&mut self, sample_format: SampleFormat)
        ensures
            final(self).tagged_format() == (if sample_format == SampleFormat::L16 {
                SampleFormat::L16
            } else {
                SampleFormat::L24
            }),
            final(self).consumed() == old(self).consumed(),
            final(self).muted() == old(self).muted(),
            final(self).phase_inverted() == old(self).phase_inverted(),
            final(self).disabled() == old(self).disabled(),
    ;

    fn is_muted(&self) -> (muted: bool)
        ensures
            muted == self.muted(),
    ;

    fn set_muted(&mut self, muted: bool)
        ensures
            final(self).muted() == muted,
            final(self).consumed() == old(self).consumed(),
            final(self).tagged_format() == old(self).tagged_format(),
            final(self).phase_inverted() == old(self).phase_inverted(),
            final(self).disabled() == old(self).disabled(),
    ;

    fn is_phase_inverted(&self) -> (phase_inverted: bool)
        ensures
            phase_inverted == self.phase_inverted(),
    ;

    fn set_phase_inverted(&mut self, phase_inverted: bool)
        ensures
            final(self).phase_inverted() == phase_inverted,
            final(self).consumed() == old(self).consumed(),
            final(self).tagged_format() == old(self).tagged_format(),
            final(self).muted() == old(self).muted(),
            final(self).disabled() == old(self).disabled(),
    ;

    fn is_disabled(&self) -> (disabled: bool)
        ensures
            disabled == self.disabled(),
    ;

    fn set_disabled(&mut self, disabled: bool)
        ensures
            final(self).disabled() == disabled,
            final(self).consumed() == old(self).consumed(),
            final(self).tagged_format() == old(self).tagged_format(),
            final(self).muted() == old(self).muted(),
            final(self).phase_inverted() == old(self).phase_inverted(),
    ;
}

/// A byte with one flag switched on or off.
pub open spec fn with_flag(byte: u8, mask: u8, on: bool) -> u8 {
    if on {
        byte | mask
    } else {
        byte & !mask
    }
}

/// Each of the five flags is a bit of its own: switching one on or off is
/// seen in that flag and in no other.
proof fn lemma_flags_independent(byte: u8)
    by (bit_vector)
    ensures
        ((byte | 0x80) >> 7) & 1 == 1,
        ((byte & !0x80u8) >> 7) & 1 == 0,
        ((byte | 0x80) >> 6) & 1 == (byte >> 6) & 1,
        ((byte & !0x80u8) >> 6) & 1 == (byte >> 6) & 1,
        ((byte | 0x80) >> 5) & 1 == (byte >> 5) & 1,
        ((byte & !0x80u8) >> 5) & 1 == (byte >> 5) & 1,
        ((byte | 0x80) >> 4) & 1 == (byte >> 4) & 1,
        ((byte & !0x80u8) >> 4) & 1 == (byte >> 4) & 1,
        ((byte | 0x80) >> 3) & 1 == (byte >> 3) & 1,
        ((byte & !0x80u8) >> 3) & 1 == (byte >> 3) & 1,
        ((byte | 0x40) >> 7) & 1 == (byte >> 7) & 1,
        ((byte & !0x40u8) >> 7) & 1 == (byte >> 7) & 1,
        ((byte | 0x40) >> 6) & 1 == 1,
        ((byte & !0x40u8) >> 6) & 1 == 0,
        ((byte | 0x40) >> 5) & 1 == (byte >> 5) & 1,
        ((byte & !0x40u8) >> 5) & 1 == (byte >> 5) & 1,
        ((byte | 0x40) >> 4) & 1 == (byte >> 4) & 1,
        ((byte & !0x40u8) >> 4) & 1 == (byte >> 4) & 1,
        ((byte | 0x40) >> 3) & 1 == (byte >> 3) & 1,
        ((byte & !0x40u8) >> 3) & 1 == (byte >> 3) & 1,
        ((byte | 0x20) >> 7) & 1 == (byte >> 7) & 1,
        ((byte & !0x20u8) >> 7) & 1 == (byte >> 7) & 1,
        ((byte | 0x20) >> 6) & 1 == (byte >> 6) & 1,
        ((byte & !0x20u8) >> 6) & 1 == (byte >> 6) & 1,
        ((byte | 0x20) >> 5) & 1 == 1,
        ((byte & !0x20u8) >> 5) & 1 == 0,
        ((byte | 0x20) >> 4) & 1 == (byte >> 4) & 1,
        ((byte & !0x20u8) >> 4) & 1 == (byte >> 4) & 1,
        ((byte | 0x20) >> 3) & 1 == (byte >> 3) & 1,
        ((byte & !0x20u8) >> 3) & 1 == (byte >> 3) & 1,
        ((byte | 0x10) >> 7) & 1 == (byte >> 7) & 1,
        ((byte & !0x10u8) >> 7) & 1 == (byte >> 7) & 1,
        ((byte | 0x10) >> 6) & 1 == (byte >> 6) & 1,
        ((byte & !0x10u8) >> 6) & 1 == (byte >> 6) & 1,
        ((byte | 0x10) >> 5) & 1 == (byte >> 5) & 1,
        ((byte & !0x10u8) >> 5) & 1 == (byte >> 5) & 1,
        ((byte | 0x10) >> 4) & 1 == 1,
        ((byte & !0x10u8) >> 4) & 1 == 0,
        ((byte | 0x10) >> 3) & 1 == (byte >> 3) & 1,
        ((byte & !0x10u8) >> 3) & 1 == (byte >> 3) & 1,
        ((byte | 0x08) >> 7) & 1 == (byte >> 7) & 1,
        ((byte & !0x08u8) >> 7) & 1 == (byte >> 7) & 1,
        ((byte | 0x08) >> 6) & 1 == (byte >> 6) & 1,
        ((byte & !0x08u8) >> 6) & 1 == (byte >> 6) & 1,
        ((byte | 0x08) >> 5) & 1 == (byte >> 5) & 1,
        ((byte & !0x08u8) >> 5) & 1 == (byte >> 5) & 1,
        ((byte | 0x08) >> 4) & 1 == (byte >> 4) & 1,
        ((byte & !0x08u8) >> 4) & 1 == (byte >> 4) & 1,
        ((byte | 0x08) >> 3) & 1 == 1,
        ((byte & !0x08u8) >> 3) & 1 == 0,
{
}

impl SampleMetadata for u8 {
    open spec fn consumed(&self) -> bool {
        (*self >> 7) & 1 == 1
    }

    open spec fn tagged_format(&self) -> SampleFormat {
        if (*self >> 6) & 1 == 1 {
            SampleFormat::L16
        } else {
            SampleFormat::L24
        }
    }

    open spec fn muted(&self) -> bool {
        (*self >> 5) & 1 == 1
    }

    open spec fn phase_inverted(&self) -> bool {
        (*self >> 4) & 1 == 1
    }

    open spec fn disabled(&self) -> bool {
        (*self >> 3) & 1 == 1
    }

    fn is_consumed(&self) -> (consumed: bool) {
        (*self >> 7) & 1 == 1
    }

    fn set_consumed(&mut self, value: bool)
        ensures
            *final(self) == with_flag(*old(self), 0x80, value),
    {
        proof {
            lemma_flags_independent(*self);
        }
        if value {
            *self |= 0x80;
        } else {
            *self &= !0x80u8;
        }
    }

    fn get_format(&self) -> (format: SampleFormat) {
        if (*self >> 6) & 1 == 1 {
            SampleFormat::L16
        } else {
            SampleFormat::L24
        }
    }

    fn set_format(&mut self, value: SampleFormat)
        ensures
            *final(self) == with_flag(*old(self), 0x40, value == SampleFormat::L16),
    {
        proof {
            lemma_flags_independent(*self);
        }
        if value == SampleFormat::L16 {
            *self |= 0x40;
        } else {
            *self &= !0x40u8;
        }
    }

    fn is_muted(&self) -> (muted: bool) {
        (*self >> 5) & 1 == 1
    }

    fn set_muted(&mut self, value: bool)
        ensures
            *final(self) == with_flag(*old(self), 0x20, value),
    {
        proof {
            lemma_flags_independent(*self);
        }
        if value {
            *self |= 0x20;
        } else {
            *self &= !0x20u8;
        }
    }

    fn is_phase_inverted(&self) -> (phase_inverted: bool) {
        (*self >> 4) & 1 == 1
    }

    fn set_phase_inverted(&mut self, value: bool)
        ensures
            *final(self) == with_flag(*old(self), 0x10, value),
    {
        proof {
            lemma_flags_independent(*self);
        }
        if value {
            *self |= 0x10;
        } else {
            *self &= !0x10u8;
        }
    }

    fn is_disabled(&self) -> (disabled: bool) {
        (*self >> 3) & 1 == 1
    }

    fn set_disabled(&mut self, value: bool)
        ensures
            *final(self) == with_flag(*old(self), 0x08, value),
    {
        proof {
            lemma_flags_independent(*self);
        }
        if value {
            *self |= 0x08;
        } else {
            *self &= !0x08u8;
        }
    }
}

/// The channels of a frame and the format of each of its samples.
#[derive(Debug, Clone, Copy, PartialEq, Eq, Hash, Structural)]
pub struct FrameFormat {
    pub channels: usize,
    pub sample_format: SampleFormat,
}

impl FrameFormat {
    /// The number of bytes of one frame.
    pub open spec fn frame_bytes(self) -> nat {
        self.channels as nat * self.sample_format.width()
    }

    pub fn bytes_per_frame(&self) -> (bytes: usize)
        requires
            self.frame_bytes() <= usize::MAX,
        ensures
            bytes == self.frame_bytes(),
    {
        self.samples_per_frame() * self.sample_format.bytes_per_sample()
    }

    pub fn samples_per_frame(&self) -> (samples: usize)
        ensures
            samples == self.channels,
    {
        self.channels
    }

    /// Where the sample of a channel starts within a frame.
    pub fn sample_index_in_buffer_frame(&self, channel: usize) -> (index: usize)
        requires
            channel * self.sample_format.width() <= usize::MAX,
        ensures
            index == channel * self.sample_format.width(),
    {
        channel * self.sample_format.bytes_per_sample()
    }
}

/// A frame format and the rate of the frames.
#[derive(Debug, Clone, Copy, PartialEq, Eq, Hash, Structural)]
pub struct AudioFormat {
    pub sample_rate: usize,
    pub frame_format: FrameFormat,
}

impl AudioFormat {
    /// The bytes of a buffer that holds `frames` frames: as many as are due
    /// within the link offset.
    pub fn bytes_per_buffer(&self, frames: usize) -> (bytes: usize)
        requires
            self.frame_format.channels * frames <= usize::MAX,
            self.frame_format.channels * frames * self.frame_format.sample_format.width()
                <= usize::MAX,
        ensures
            bytes == self.frame_format.channels * frames * self.frame_format.sample_format.width(),
    {
        self.samples_per_link_offset_buffer(frames)
            * self.frame_format.sample_format.bytes_per_sample()
    }

    /// The samples of a buffer that holds `frames` frames.
    pub fn samples_per_link_offset_buffer(&self, frames: usize) -> (samples: usize)
        requires
            self.frame_format.channels * frames <= usize::MAX,
        ensures
            samples == self.frame_format.channels * frames,
    {
        self.frame_format.channels * frames
    }
}

/// The length of a buffer in bytes and the format of what it holds.
#[derive(Debug, Clone, Copy, PartialEq, Eq, Structural)]
pub struct BufferFormat {
    pub buffer_len: usize,
    pub audio_format: AudioFormat,
}

impl BufferFormat {
    /// The number of whole frames that fit.
    pub open spec fn frames(self) -> nat {
        self.buffer_len as nat / self.audio_format.frame_format.frame_bytes()
    }

    /// Whether a frame has a size that can be computed and is not zero.
    pub open spec fn has_frames(self) -> bool {
        0 < self.audio_format.frame_format.frame_bytes() <= usize::MAX
    }

    /// The format of a buffer for what a receiver receives, of `frames`
    /// frames: those that are due within its link offset. There is none where
    /// the bit depth is not supported.
    pub fn for_rtp_payload(value: &RxDescriptor, frames: usize) -> (format: Option<Self>)
        requires
            value.channels * frames <= usize::MAX,
            value.channels * frames * value@.sample_bytes() <= usize::MAX,
        ensures
            match value@.audio_format() {
                Some(audio_format) => format == Some(
                    BufferFormat {
                        buffer_len: (value.channels * frames
                            * audio_format.frame_format.sample_format.width()) as usize,
                        audio_format,
                    },
                ),
                None => format is None,
            },
    {
        match value.audio_format() {
            Some(audio_format) => {
                let buffer_len = audio_format.bytes_per_buffer(frames);
                Some(BufferFormat { buffer_len, audio_format })
            },
            None => None,
        }
    }

    /// The format of a playout buffer of `frames` frames: those that are due
    /// within four times the link offset.
    pub fn for_rtp_playout_buffer(frames: usize, audio_format: AudioFormat) -> (format: Self)
        requires
            audio_format.frame_format.channels * frames <= usize::MAX,
            audio_format.frame_format.channels * frames
                * audio_format.frame_format.sample_format.width() <= usize::MAX,
        ensures
            format.audio_format == audio_format,
            format.buffer_len == audio_format.frame_format.channels * frames
                * audio_format.frame_format.sample_format.width(),
    {
        let buffer_len = audio_format.bytes_per_buffer(frames);
        BufferFormat { buffer_len, audio_format }
    }

    pub fn frames_per_buffer(&self) -> (frames: usize)
        requires
            self.has_frames(),
        ensures
            frames == self.frames(),
    {
        self.buffer_len / self.audio_format.frame_format.bytes_per_frame()
    }

    /// The bytes of the whole frames that fit.
    pub fn bytes_per_buffer(&self) -> (bytes: usize)
        requires
            self.has_frames(),
        ensures
            bytes == self.audio_format.frame_format.frame_bytes() * self.frames(),
            bytes <= self.buffer_len,
    {
        proof {
            let size = self.audio_format.frame_format.frame_bytes();
            vstd::arithmetic::div_mod::lemma_fundamental_div_mod(
                self.buffer_len as int,
                size as int,
            );
            vstd::arithmetic::div_mod::lemma_mod_bound(self.buffer_len as int, size as int);
        }
        self.audio_format.frame_format.bytes_per_frame() * self.frames_per_buffer()
    }
}

/// Where a buffer is found and what it holds.
#[derive(Debug, Clone)]
pub struct BufferConfig {
    pub format: BufferFormat,
    pub address: String,
}

/// The two buffers that an audio system works on.
#[derive(Debug, Clone)]
pub struct AudioSystemConfig {
    pub input_buffer: BufferConfig,
    pub output_buffer: BufferConfig,
}

/// A sample that was put into the internal format is read back with the value
/// that it had, and is neither consumed nor muted nor disabled nor inverted.
pub proof fn lemma_internal_format_keeps_value(source: Seq<u8>, before: Seq<u8>)
    requires
        source.len() == 2 || source.len() == 3,
        before.len() == 4,
    ensures
        SampleFormat::Internal.holds_sample(internal_bytes(source, before)),
        source.len() == 2 ==> SampleFormat::Internal.value_in(internal_bytes(source, before))
            == SampleFormat::L16.value_in(source),
        source.len() == 3 ==> SampleFormat::Internal.value_in(internal_bytes(source, before))
            == SampleFormat::L24.value_in(source),
        source.len() == 2 ==> SampleFormat::Internal.ratio_in(internal_bytes(source, before))
            == SampleFormat::L16.ratio_in(source),
        source.len() == 3 ==> SampleFormat::Internal.ratio_in(internal_bytes(source, before))
            == SampleFormat::L24.ratio_in(source),
        !internal_bytes(source, before)[0].consumed(),
        !internal_bytes(source, before)[0].muted(),
        !internal_bytes(source, before)[0].disabled(),
        !internal_bytes(source, before)[0].phase_inverted(),
        source.len() == 2 ==> internal_bytes(source, before)[0].tagged_format()
            == SampleFormat::L16,
        source.len() == 3 ==> internal_bytes(source, before)[0].tagged_format()
            == SampleFormat::L24,
{
    assert((0u8 >> 7) & 1 == 0 && (0u8 >> 6) & 1 == 0 && (0u8 >> 5) & 1 == 0 && (0u8 >> 4) & 1 == 0
        && (0u8 >> 3) & 1 == 0) by (bit_vector);
    assert((0x40u8 >> 7) & 1 == 0 && (0x40u8 >> 6) & 1 == 1 && (0x40u8 >> 5) & 1 == 0 && (0x40u8
        >> 4) & 1 == 0 && (0x40u8 >> 3) & 1 == 0) by (bit_vector);
}

/// A sample relative to full scale lies between -1 and 1.
pub proof fn lemma_ratio_within_full_scale(b0: u8, b1: u8, b2: u8)
    ensures
        ({
            let r = ratio_of(value_of_16_bits(b0, b1), 0x7fff);
            -r.denominator <= r.numerator <= r.denominator
        }),
        ({
            let r = ratio_of(value_of_24_bits(b0, b1, b2), 0x7fffff);
            -r.denominator <= r.numerator <= r.denominator
        }),
{
}

/// Each flag of the metadata is one bit of it: from the highest bit down, that
/// the sample is consumed, that it has two bytes, that it is muted, that its
/// phase is inverted, and that it is disabled.
pub proof fn lemma_metadata_bits(byte: u8)
    ensures
        byte.consumed() <==> byte & 0x80 != 0,
        byte.tagged_format() == SampleFormat::L16 <==> byte & 0x40 != 0,
        byte.tagged_format() == SampleFormat::L24 <==> byte & 0x40 == 0,
        byte.muted() <==> byte & 0x20 != 0,
        byte.phase_inverted() <==> byte & 0x10 != 0,
        byte.disabled() <==> byte & 0x08 != 0,
{
    assert((byte >> 7) & 1 == 1 <==> byte & 0x80 != 0) by (bit_vector);
    assert((byte >> 6) & 1 == 1 <==> byte & 0x40 != 0) by (bit_vector);
    assert((byte >> 5) & 1 == 1 <==> byte & 0x20 != 0) by (bit_vector);
    assert((byte >> 4) & 1 == 1 <==> byte & 0x10 != 0) by (bit_vector);
    assert((byte >> 3) & 1 == 1 <==> byte & 0x08 != 0) by (bit_vector);
}

/// The value of a linear sample is the one number of its width that has these
/// bytes in two's complement: it differs from what the bytes denote without a
/// sign by a multiple of the number of values that there are.
pub proof fn lemma_value_has_these_bytes(b0: u8, b1: u8, b2: u8)
    ensures
        -0x8000 <= value_of_16_bits(b0, b1) <= 0x7fff,
        (value_of_16_bits(b0, b1) - (b0 * 0x100 + b1)) % 0x1_0000 == 0,
        value_of_16_bits(b0, b1) < 0 <==> b0 >= 0x80,
        -0x80_0000 <= value_of_24_bits(b0, b1, b2) <= 0x7f_ffff,
        (value_of_24_bits(b0, b1, b2) - (b0 * 0x1_0000 + b1 * 0x100 + b2)) % 0x100_0000 == 0,
        value_of_24_bits(b0, b1, b2) < 0 <==> b0 >= 0x80,
{
}

/// What reading a linear sample gives, in terms of its bytes: the number that they
/// denote in two's complement. Relative to full scale, a sample with the value `v`
/// is `v` steps away from silence where `v` is not negative, and `v + 1` steps
/// where it is, out of as many steps as the largest value is away from silence.
pub proof fn lemma_linear_samples_are_read(format: SampleFormat, bytes: Seq<u8>)
    requires
        format == SampleFormat::L16 || format == SampleFormat::L24,
        format == SampleFormat::L16 ==> bytes.len() >= 2,
        format == SampleFormat::L24 ==> bytes.len() >= 3,
    ensures
        ({
            let raw: int = if format == SampleFormat::L16 {
                bytes[0] * 0x100 + bytes[1]
            } else {
                bytes[0] * 0x1_0000 + bytes[1] * 0x100 + bytes[2]
            };
            let half: int = if format == SampleFormat::L16 {
                0x8000
            } else {
                0x80_0000
            };
            let v = if raw < half {
                raw
            } else {
                raw - 2 * half
            };
            &&& format.holds_sample(bytes)
            &&& format.value_in(bytes) == Some(v)
            &&& format.ratio_in(bytes) matches Some(ratio) && {
                &&& v >= 0 ==> ratio.numerator == v
                &&& v < 0 ==> ratio.numerator == v + 1
                &&& ratio.denominator == half - 1
            }
        }),
{
}

/// The louder a sample, the further it is from silence relative to full scale:
/// the larger of two values has the larger ratio, but for -1 and 0, which are
/// both silent. A sample and the one with all bits inverted are equally far
/// from silence, on both sides of it.
pub proof fn lemma_ratio_follows_value(v: int, w: int, largest: int)
    requires
        0 < largest <= 0x7f_ffff,
        -largest - 1 <= v < w <= largest,
    ensures
        ratio_of(v, largest).numerator <= ratio_of(w, largest).numerator,
        ratio_of(v, largest).numerator == ratio_of(w, largest).numerator <==> v == -1 && w == 0,
        ratio_of(v, largest).numerator == -ratio_of(-1 - v, largest).numerator,
        ratio_of(largest, largest).numerator == largest,
        ratio_of(0, largest).numerator == 0,
        ratio_of(v, largest).denominator == largest,
        ratio_of(w, largest).numerator - ratio_of(v, largest).numerator <= w - v,
{
}

/// What is left of a slot when a linear sample was put into it: its bytes
/// stand at the end of the slot, the first byte tells their number and has no
/// other flag, and a byte between them keeps what it held.
pub proof fn lemma_internal_format_layout(source: Seq<u8>, before: Seq<u8>)
    requires
        source.len() == 2 || source.len() == 3,
        before.len() == 4,
    ensures
        internal_bytes(source, before).len() == 4,
        internal_bytes(source, before).skip(4 - source.len()) == source,
        source.len() == 2 ==> internal_bytes(source, before)[0] == 0x40,
        source.len() == 2 ==> internal_bytes(source, before)[1] == before[1],
        source.len() == 3 ==> internal_bytes(source, before)[0] == 0,
{
}

/// What reading a slot gives. Nothing is read where the sample was consumed,
/// and silence where it is muted. Else it is the linear sample at the end of the
/// slot, of as many bytes as the metadata tell, whatever else they tell.
pub proof fn lemma_internal_samples_are_read(bytes: Seq<u8>)
    requires
        bytes.len() == 4,
    ensures
        SampleFormat::Internal.holds_sample(bytes),
        bytes[0] & 0x80 != 0 ==> {
            &&& SampleFormat::Internal.value_in(bytes) is None
            &&& SampleFormat::Internal.ratio_in(bytes) is None
        },
        bytes[0] & 0x80 == 0 && bytes[0] & 0x20 != 0 ==> {
            &&& SampleFormat::Internal.value_in(bytes) == Some(0int)
            &&& SampleFormat::Internal.ratio_in(bytes) matches Some(ratio) && ratio.numerator == 0
                && ratio.denominator != 0
        },
        bytes[0] & 0x80 == 0 && bytes[0] & 0x20 == 0 && bytes[0] & 0x40 != 0 ==> {
            &&& SampleFormat::Internal.value_in(bytes) == SampleFormat::L16.value_in(bytes.skip(2))
            &&& SampleFormat::Internal.ratio_in(bytes) == SampleFormat::L16.ratio_in(bytes.skip(2))
        },
        bytes[0] & 0x80 == 0 && bytes[0] & 0x20 == 0 && bytes[0] & 0x40 == 0 ==> {
            &&& SampleFormat::Internal.value_in(bytes) == SampleFormat::L24.value_in(bytes.skip(1))
            &&& SampleFormat::Internal.ratio_in(bytes) == SampleFormat::L24.ratio_in(bytes.skip(1))
        },
{
    lemma_metadata_bits(bytes[0]);
}

/// Silence is what is read of a linear sample whose bytes are all zero.
pub proof fn lemma_zeros_are_silent()
    ensures
        SampleReader::<i32>::silence(&SampleFormat::Internal) == 0,
        SampleReader::<i32>::sample_in(&SampleFormat::L16, seq![0u8, 0u8]) == Some(0i32),
        SampleReader::<i32>::sample_in(&SampleFormat::L24, seq![0u8, 0u8, 0u8]) == Some(0i32),
        SampleReader::<SampleRatio>::silence(&SampleFormat::Internal).numerator == 0,
        SampleReader::<SampleRatio>::silence(&SampleFormat::Internal).denominator != 0,
{
}

/// Switching a flag on or off sets its bit and leaves the others as they are.
pub proof fn lemma_flag_is_switched(byte: u8, mask: u8, on: bool)
    ensures
        on ==> with_flag(byte, mask, on) & mask == mask,
        !on ==> with_flag(byte, mask, on) & mask == 0,
        with_flag(byte, mask, on) & !mask == byte & !mask,
{
    assert((byte | mask) & mask == mask) by (bit_vector);
    assert((byte & !mask) & mask == 0) by (bit_vector);
    assert((byte | mask) & !mask == byte & !mask) by (bit_vector);
    assert((byte & !mask) & !mask == byte & !mask) by (bit_vector);
}

/// The frames of a buffer are those that fit into it as a whole: one more would
/// not. A frame has a sample of the width of its format for each channel, and a
/// slot has room for a byte of metadata and the widest linear sample.
pub proof fn lemma_whole_frames_fit(format: BufferFormat)
    requires
        format.has_frames(),
    ensures
        ({
            let frame = format.audio_format.frame_format;
            let size = frame.channels * frame.sample_format.width();
            &&& format.frames() * size <= format.buffer_len
            &&& format.buffer_len < (format.frames() + 1) * size
        }),
        SampleFormat::L16.width() * 8 == 16,
        SampleFormat::L24.width() * 8 == 24,
        SampleFormat::Internal.width() == 1 + SampleFormat::L24.width(),
{
    let size = format.audio_format.frame_format.frame_bytes() as int;
    let len = format.buffer_len as int;
    vstd::arithmetic::div_mod::lemma_fundamental_div_mod(len, size);
    vstd::arithmetic::div_mod::lemma_mod_bound(len, size);
    assert(size * (len / size) == (len / size) * size) by (nonlinear_arith);
    assert((len / size + 1) * size == (len / size) * size + size) by (nonlinear_arith);
}

} // verus!
