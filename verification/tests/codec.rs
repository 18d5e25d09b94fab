//! The message codec: round trips, exact wire bytes, decode errors.

use ramloader::codec::{decode_request, decode_response, encode_request, encode_response};
use ramloader::messages::{Host2TargetMessage, Target2HostMessage};
use ramloader::window::RAM_PROGRAM_START_ADDRESS;

#[test]
fn write_request_round_trips() {
    let message = Host2TargetMessage::Write {
        start_address: RAM_PROGRAM_START_ADDRESS,
        data: vec![0xAA; 16],
    };
    let frame = encode_request(&message);
    assert_eq!(decode_request(&frame), Ok(message));
}

#[test]
fn write_request_with_zero_bytes_round_trips() {
    let message = Host2TargetMessage::Write {
        start_address: 0x2002_0000,
        data: vec![0x00, 0x11, 0x00, 0x00, 0x22],
    };
    let frame = encode_request(&message);
    assert_eq!(decode_request(&frame), Ok(message));
}

#[test]
fn long_write_request_round_trips() {
    // more than one stuffing block of zero-free data
    let mut data = Vec::new();
    for i in 0..700usize {
        data.push((i % 255) as u8 + 1);
    }
    let message = Host2TargetMessage::Write {
        start_address: 0x2003_0000,
        data,
    };
    let frame = encode_request(&message);
    assert_eq!(decode_request(&frame), Ok(message));
}

#[test]
fn execute_request_round_trips() {
    let frame = encode_request(&Host2TargetMessage::Execute);
    assert_eq!(decode_request(&frame), Ok(Host2TargetMessage::Execute));
}

#[test]
fn responses_round_trip() {
    let ok_frame = encode_response(&Target2HostMessage::WriteOk);
    assert_eq!(decode_response(&ok_frame), Ok(Target2HostMessage::WriteOk));
    let bad_frame = encode_response(&Target2HostMessage::InvalidAddress);
    assert_eq!(
        decode_response(&bad_frame),
        Ok(Target2HostMessage::InvalidAddress)
    );
}

#[test]
fn exact_wire_bytes_of_responses() {
    // WriteOk: payload [0x00], stuffed to [0x01, 0x01], delimiter closes it
    assert_eq!(encode_response(&Target2HostMessage::WriteOk), vec![0x01, 0x01, 0x00]);
    // InvalidAddress: payload [0x01], stuffed to [0x02, 0x01]
    assert_eq!(
        encode_response(&Target2HostMessage::InvalidAddress),
        vec![0x02, 0x01, 0x00]
    );
}

#[test]
fn exact_wire_bytes_of_requests() {
    // Execute: payload [0x01], stuffed to [0x02, 0x01]
    assert_eq!(encode_request(&Host2TargetMessage::Execute), vec![0x02, 0x01, 0x00]);
    // Write at 0x2002_0000 of [0xAA, 0xBB]: tag 0x00, the address as the
    // varint [0x80, 0x80, 0x88, 0x80, 0x02], length 2, then the data;
    // stuffing turns the leading zero into code 0x01 and the zero-free
    // rest into one final block of code 0x09
    let message = Host2TargetMessage::Write {
        start_address: 0x2002_0000,
        data: vec![0xAA, 0xBB],
    };
    assert_eq!(
        encode_request(&message),
        vec![0x01, 0x09, 0x80, 0x80, 0x88, 0x80, 0x02, 0x02, 0xAA, 0xBB, 0x00]
    );
}

#[test]
fn decode_rejects_frames_that_spell_no_request() {
    // empty
    assert!(decode_request(&vec![]).is_err());
    // no delimiter at the end
    assert!(decode_request(&vec![0x02, 0x01]).is_err());
    // delimiter alone: empty body unstuffs to nothing
    assert!(decode_request(&vec![0x00]).is_err());
    // broken stuffing: code byte reaches past the body
    assert!(decode_request(&vec![0x05, 0x01, 0x00]).is_err());
    // unknown tag
    assert!(decode_request(&vec![0x02, 0x07, 0x00]).is_err());
    // Execute with trailing bytes
    assert!(decode_request(&vec![0x03, 0x01, 0x01, 0x00]).is_err());
    // Write whose declared data length disagrees with the bytes present
    assert!(decode_request(&vec![0x01, 0x04, 0x01, 0x05, 0xAA, 0x00]).is_err());
    // Write truncated before the length field
    assert!(decode_request(&vec![0x01, 0x02, 0x01, 0x00]).is_err());
}

#[test]
fn decode_response_rejects_unknown_payloads() {
    assert!(decode_response(&vec![]).is_err());
    assert!(decode_response(&vec![0x02, 0x07, 0x00]).is_err());
    assert!(decode_response(&vec![0x02, 0x01]).is_err());
}
