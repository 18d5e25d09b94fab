//! The two message types of the loader protocol.
//!
//! The host sends requests: any number of `Write`s, then one
//! `Execute`. The target answers every `Write` with exactly one
//! response, `WriteOk` or `InvalidAddress`; an `Execute` is never
//! answered, because control has left the loader for good.

use vstd::prelude::*;

verus! {

/// A request from the host to the target.
#[derive(Debug, PartialEq, Eq)]
pub enum Host2TargetMessage {
    /// Store `data` into RAM beginning at `start_address`.
    Write { start_address: u32, data: Vec<u8> },
    /// Hand control over to the loaded image.
    Execute,
}

/// A response from the target to the host.
#[derive(Debug, PartialEq, Eq, Structural, Clone, Copy)]
pub enum Target2HostMessage {
    /// The write range was valid and the bytes are in place.
    WriteOk,
    /// The write range falls outside the RAM window; nothing was
    /// written.
    InvalidAddress,
}

/// A frame that does not spell a well-formed request.
#[derive(Debug, PartialEq, Eq, Clone, Copy)]
pub struct DecodeError;

/// The mathematical shape of a request: the data as a plain byte
/// sequence.
pub enum HostMessageModel {
    Write { start_address: u32, data: Seq<u8> },
    Execute,
}

impl HostMessageModel {
    /// The data of a request is a bounded byte sequence; its length is
    /// carried on the wire as a 32-bit field.
    pub open spec fn wf(self) -> bool {
        match self {
            HostMessageModel::Write { data, .. } => data.len() <= u32::MAX,
            HostMessageModel::Execute => true,
        }
    }
}

impl View for Host2TargetMessage {
    type V = HostMessageModel;

    open spec fn view(&self) -> HostMessageModel {
        match self {
            Host2TargetMessage::Write { start_address, data } => HostMessageModel::Write {
                start_address: *start_address,
                data: data@,
            },
            Host2TargetMessage::Execute => HostMessageModel::Execute,
        }
    }
}

} // verus!
