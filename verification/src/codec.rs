//! The message codec: typed messages to and from complete frames.
//!
//! A message is laid out as a tag byte followed by its fields — a
//! varint for each 32-bit value, the write data as a varint length
//! and the raw bytes. That payload is then byte-stuffed and closed
//! with the delimiter (see `cobs`), giving a frame ready for the
//! wire. Decoding runs the same two steps backwards and fails, with
//! `DecodeError`, on any frame whose tag, fields or length do not
//! spell a message.

use vstd::prelude::*;

use crate::cobs::{
    cobs_decode, cobs_decode_body, cobs_encode, cobs_encode_frame, push_range, COBS_DELIMITER,
};
use crate::messages::{DecodeError, Host2TargetMessage, HostMessageModel, Target2HostMessage};
use crate::varint::{
    encode_varint_u32, lemma_varint_u32_round_trip, parse_varint_u32, varint_encode,
    varint_u32_decode,
};

verus! {

/// Tag byte of a `Write` request.
pub const WRITE_TAG: u8 = 0;

/// Tag byte of an `Execute` request.
pub const EXECUTE_TAG: u8 = 1;

/// Tag byte of a `WriteOk` response.
pub const WRITE_OK_TAG: u8 = 0;

/// Tag byte of an `InvalidAddress` response.
pub const INVALID_ADDRESS_TAG: u8 = 1;

/// The unstuffed payload of a request.
pub open spec fn request_payload(m: HostMessageModel) -> Seq<u8> {
    match m {
        HostMessageModel::Write { start_address, data } => seq![WRITE_TAG] + varint_encode(
            start_address as nat,
        ) + varint_encode(data.len()) + data,
        HostMessageModel::Execute => seq![EXECUTE_TAG],
    }
}

/// Reads a request back from an unstuffed payload.
pub open spec fn parse_request_payload(s: Seq<u8>) -> Option<HostMessageModel> {
    if s.len() == 0 {
        None
    } else if s[0] == WRITE_TAG {
        match varint_u32_decode(s.skip(1)) {
            Some((start_address, r1)) => match varint_u32_decode(r1) {
                Some((len, r2)) => if r2.len() == len as nat {
                    Some(HostMessageModel::Write { start_address, data: r2 })
                } else {
                    None
                },
                None => None,
            },
            None => None,
        }
    } else if s[0] == EXECUTE_TAG {
        if s.len() == 1 {
            Some(HostMessageModel::Execute)
        } else {
            None
        }
    } else {
        None
    }
}

/// A payload stuffed and closed with the delimiter: a complete frame.
pub open spec fn delimited_frame(p: Seq<u8>) -> Seq<u8> {
    cobs_encode(p) + seq![COBS_DELIMITER]
}

/// Strips the delimiter off a complete frame and unstuffs the body.
pub open spec fn parse_delimited_frame(f: Seq<u8>) -> Option<Seq<u8>> {
    if f.len() == 0 || f[f.len() - 1] != COBS_DELIMITER {
        None
    } else {
        cobs_decode(f.take(f.len() - 1))
    }
}

/// The complete frame of a request: stuffed payload plus delimiter.
pub open spec fn request_frame(m: HostMessageModel) -> Seq<u8> {
    delimited_frame(request_payload(m))
}

/// Reads a request back from a complete frame.
pub open spec fn parse_request_frame(f: Seq<u8>) -> Option<HostMessageModel> {
    match parse_delimited_frame(f) {
        Some(p) => parse_request_payload(p),
        None => None,
    }
}

/// The unstuffed payload of a response.
pub open spec fn response_payload(m: Target2HostMessage) -> Seq<u8> {
    match m {
        Target2HostMessage::WriteOk => seq![WRITE_OK_TAG],
        Target2HostMessage::InvalidAddress => seq![INVALID_ADDRESS_TAG],
    }
}

/// Reads a response back from an unstuffed payload.
pub open spec fn parse_response_payload(s: Seq<u8>) -> Option<Target2HostMessage> {
    if s.len() != 1 {
        None
    } else if s[0] == WRITE_OK_TAG {
        Some(Target2HostMessage::WriteOk)
    } else if s[0] == INVALID_ADDRESS_TAG {
        Some(Target2HostMessage::InvalidAddress)
    } else {
        None
    }
}

/// The complete frame of a response: stuffed payload plus delimiter.
pub open spec fn response_frame(m: Target2HostMessage) -> Seq<u8> {
    delimited_frame(response_payload(m))
}

/// Reads a response back from a complete frame.
pub open spec fn parse_response_frame(f: Seq<u8>) -> Option<Target2HostMessage> {
    match parse_delimited_frame(f) {
        Some(p) => parse_response_payload(p),
        None => None,
    }
}

/// Round trip through the framing: a stuffed-and-delimited payload
/// comes back out of the frame untouched.
pub proof fn lemma_frame_round_trip(p: Seq<u8>)
    ensures
        parse_delimited_frame(delimited_frame(p)) == Some(p),
{
    crate::cobs::lemma_cobs_encode_nonempty(p);
    crate::cobs::lemma_cobs_round_trip(p);
    let f = delimited_frame(p);
    assert(f.take(f.len() - 1) =~= cobs_encode(p));
}

/// Round-trip law for requests: decoding an encoded request yields
/// the request itself.
pub proof fn lemma_request_round_trip(m: HostMessageModel)
    requires
        m.wf(),
    ensures
        parse_request_frame(request_frame(m)) == Some(m),
{
    let p = request_payload(m);
    lemma_frame_round_trip(p);
    match m {
        HostMessageModel::Write { start_address, data } => {
            let tail1 = varint_encode(data.len()) + data;
            assert(p.skip(1) =~= varint_encode(start_address as nat) + tail1);
            lemma_varint_u32_round_trip(start_address, tail1);
            lemma_varint_u32_round_trip(data.len() as u32, data);
            assert(varint_encode((data.len() as u32) as nat) == varint_encode(data.len()));
        },
        HostMessageModel::Execute => {
            assert(p.len() == 1 && p[0] == EXECUTE_TAG);
        },
    }
}

/// Round-trip law for responses: decoding an encoded response yields
/// the response itself.
pub proof fn lemma_response_round_trip(m: Target2HostMessage)
    ensures
        parse_response_frame(response_frame(m)) == Some(m),
{
    lemma_frame_round_trip(response_payload(m));
}

/// Encodes a request into a complete frame.
pub fn encode_request(message: &Host2TargetMessage) -> (frame: Vec<u8>)
    requires
        message@.wf(),
    ensures
        frame@ == request_frame(message@),
{
    let mut payload: Vec<u8> = Vec::new();
    match message {
        Host2TargetMessage::Write { start_address, data } => {
            payload.push(WRITE_TAG);
            encode_varint_u32(*start_address, &mut payload);
            encode_varint_u32(data.len() as u32, &mut payload);
            push_range(&mut payload, data, 0, data.len());
            proof {
                assert(data@.subrange(0, data@.len() as int) =~= data@);
                assert(payload@ =~= request_payload(message@));
            }
        },
        Host2TargetMessage::Execute => {
            payload.push(EXECUTE_TAG);
            proof {
                assert(payload@ =~= request_payload(message@));
            }
        },
    }
    cobs_encode_frame(&payload)
}

/// Decodes a complete frame into a request, or reports why it is not
/// one.
pub fn decode_request(frame: &Vec<u8>) -> (r: Result<Host2TargetMessage, DecodeError>)
    ensures
        match parse_request_frame(frame@) {
            Some(m) => r is Ok && r->Ok_0@ == m,
            None => r is Err,
        },
{
    if frame.len() == 0 {
        return Err(DecodeError);
    }
    if frame[frame.len() - 1] != COBS_DELIMITER {
        return Err(DecodeError);
    }
    let mut body: Vec<u8> = Vec::new();
    push_range(&mut body, frame, 0, frame.len() - 1);
    proof {
        assert(body@ =~= frame@.take(frame@.len() - 1));
    }
    let payload = match cobs_decode_body(&body) {
        Some(p) => p,
        None => {
            return Err(DecodeError);
        },
    };
    if payload.len() == 0 {
        return Err(DecodeError);
    }
    let tag = payload[0];
    if tag == WRITE_TAG {
        match parse_varint_u32(&payload, 1) {
            Some((start_address, pos1)) => match parse_varint_u32(&payload, pos1) {
                Some((len, pos2)) => {
                    if payload.len() - pos2 == len as usize {
                        let mut data: Vec<u8> = Vec::new();
                        push_range(&mut data, &payload, pos2, payload.len());
                        proof {
                            assert(data@ =~= payload@.skip(pos2 as int));
                        }
                        Ok(Host2TargetMessage::Write { start_address, data })
                    } else {
                        Err(DecodeError)
                    }
                },
                None => Err(DecodeError),
            },
            None => Err(DecodeError),
        }
    } else if tag == EXECUTE_TAG {
        if payload.len() == 1 {
            Ok(Host2TargetMessage::Execute)
        } else {
            Err(DecodeError)
        }
    } else {
        Err(DecodeError)
    }
}

/// Encodes a response into a complete frame.
pub fn encode_response(message: &Target2HostMessage) -> (frame: Vec<u8>)
    ensures
        frame@ == response_frame(*message),
{
    let mut payload: Vec<u8> = Vec::new();
    match message {
        Target2HostMessage::WriteOk => payload.push(WRITE_OK_TAG),
        Target2HostMessage::InvalidAddress => payload.push(INVALID_ADDRESS_TAG),
    }
    proof {
        assert(payload@ =~= response_payload(*message));
    }
    cobs_encode_frame(&payload)
}

/// Decodes a complete frame into a response, or reports why it is not
/// one.
pub fn decode_response(frame: &Vec<u8>) -> (r: Result<Target2HostMessage, DecodeError>)
    ensures
        match parse_response_frame(frame@) {
            Some(m) => r == Ok::<Target2HostMessage, DecodeError>(m),
            None => r is Err,
        },
{
    if frame.len() == 0 {
        return Err(DecodeError);
    }
    if frame[frame.len() - 1] != COBS_DELIMITER {
        return Err(DecodeError);
    }
    let mut body: Vec<u8> = Vec::new();
    push_range(&mut body, frame, 0, frame.len() - 1);
    proof {
        assert(body@ =~= frame@.take(frame@.len() - 1));
    }
    let payload = match cobs_decode_body(&body) {
        Some(p) => p,
        None => {
            return Err(DecodeError);
        },
    };
    if payload.len() != 1 {
        return Err(DecodeError);
    }
    if payload[0] == WRITE_OK_TAG {
        Ok(Target2HostMessage::WriteOk)
    } else if payload[0] == INVALID_ADDRESS_TAG {
        Ok(Target2HostMessage::InvalidAddress)
    } else {
        Err(DecodeError)
    }
}

} // verus!
