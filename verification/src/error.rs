//! What can go wrong while receiving.

use crate::duration::Millis;
use crate::format::ReceiverId;
use vstd::prelude::*;

verus! {

/// Why a receiver could not be created, changed or deleted.
#[derive(Debug)]
pub enum RxError {
    InvalidSdp(String),
    InvalidReceiverId(ReceiverId),
    MaxChannelsExceeded(usize),
    InvalidLinkOffset(Millis, Millis),
    NoPlayoutDevice(String),
    UnknownSampleFormat(String),
    Other(String),
}

/// The mathematical value of an `RxError`.
pub enum RxErrorModel {
    InvalidSdp(Seq<char>),
    InvalidReceiverId(nat),
    MaxChannelsExceeded(nat),
    InvalidLinkOffset(Millis, Millis),
    NoPlayoutDevice(Seq<char>),
    UnknownSampleFormat(Seq<char>),
    Other(Seq<char>),
}

impl View for RxError {
    type V = RxErrorModel;

    open spec fn view(&self) -> RxErrorModel {
        match self {
            RxError::InvalidSdp(text) => RxErrorModel::InvalidSdp(text@),
            RxError::InvalidReceiverId(id) => RxErrorModel::InvalidReceiverId(*id as nat),
            RxError::MaxChannelsExceeded(max) => RxErrorModel::MaxChannelsExceeded(*max as nat),
            RxError::InvalidLinkOffset(offset, max) => RxErrorModel::InvalidLinkOffset(
                *offset,
                *max,
            ),
            RxError::NoPlayoutDevice(text) => RxErrorModel::NoPlayoutDevice(text@),
            RxError::UnknownSampleFormat(text) => RxErrorModel::UnknownSampleFormat(text@),
            RxError::Other(text) => RxErrorModel::Other(text@),
        }
    }
}

} // verus!
