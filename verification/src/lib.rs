//! A virtual sound card for AES67 streams.
//!
//! Streams that are announced with session descriptions are received as RTP
//! packets, put into a playout buffer and played out on the ports of an audio
//! system, in time with a clock that follows the precision time protocol.
//! This library decides what is done: what a session description says
//! ([`session`], [`socket`]), which receiver gets which ports ([`receivers`],
//! [`matrix`]), where a packet goes in the playout buffer and what is read from
//! it ([`audio_buffer`], [`receive_loop`]), how packets are put back into order
//! ([`sequence_buffer`]), how the clocks are kept together ([`playout`],
//! [`ptp`]), and what is published of all this ([`status`], [`discovery`],
//! [`web`]). It does no input or output itself.

pub mod audio_buffer;
pub mod descriptor;
pub mod discovery;
pub mod duration;
pub mod error;
pub mod format;
pub mod host;
pub mod matrix;
pub mod media_clock;
pub mod network;
pub mod playout;
pub mod ptp;
pub mod receive_loop;
pub mod receivers;
pub mod rtp;
pub mod sequence_buffer;
pub mod session;
pub mod sizes;
pub mod socket;
pub mod status;
pub mod text;
pub mod topic;
pub mod transmitters;
pub mod web;
