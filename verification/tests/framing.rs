//! Byte stuffing and frame reassembly.

use ramloader::cobs::{cobs_decode_body, cobs_encode_frame, COBS_DELIMITER};
use ramloader::frame::{BufferOverflow, FrameAccumulator, FRAME_CAPACITY};

#[test]
fn stuffing_replaces_zeroes_exactly() {
    let frame = cobs_encode_frame(&vec![0x11, 0x22, 0x00, 0x33]);
    assert_eq!(frame, vec![0x03, 0x11, 0x22, 0x02, 0x33, 0x00]);
    let empty = cobs_encode_frame(&vec![]);
    assert_eq!(empty, vec![0x01, 0x00]);
    let zeroes = cobs_encode_frame(&vec![0x00, 0x00]);
    assert_eq!(zeroes, vec![0x01, 0x01, 0x01, 0x00]);
}

#[test]
fn stuffed_bodies_hold_no_delimiter() {
    let mut payload = vec![0u8; 3];
    payload.extend((0..600u32).map(|i| (i % 256) as u8));
    let frame = cobs_encode_frame(&payload);
    assert_eq!(frame.last(), Some(&COBS_DELIMITER));
    assert!(frame[..frame.len() - 1].iter().all(|&b| b != COBS_DELIMITER));
}

#[test]
fn long_zero_free_payloads_round_trip() {
    // needs the 254-byte block chaining: 300 zero-free bytes
    let payload: Vec<u8> = (0..300u32).map(|i| (i % 250) as u8 + 1).collect();
    let frame = cobs_encode_frame(&payload);
    assert_eq!(frame[0], 0xFF);
    let body: Vec<u8> = frame[..frame.len() - 1].to_vec();
    assert_eq!(cobs_decode_body(&body), Some(payload));
}

#[test]
fn exactly_254_zero_free_bytes_round_trip() {
    let payload = vec![0x42u8; 254];
    let frame = cobs_encode_frame(&payload);
    let body: Vec<u8> = frame[..frame.len() - 1].to_vec();
    assert_eq!(cobs_decode_body(&body), Some(payload));
}

#[test]
fn accumulator_yields_the_frame_at_the_delimiter() {
    let mut acc = FrameAccumulator::new();
    assert_eq!(acc.push_byte(0x03), Ok(None));
    assert_eq!(acc.push_byte(0x11), Ok(None));
    assert_eq!(acc.push_byte(0x22), Ok(None));
    assert_eq!(acc.push_byte(0x02), Ok(None));
    assert_eq!(acc.push_byte(0x33), Ok(None));
    assert_eq!(
        acc.push_byte(COBS_DELIMITER),
        Ok(Some(vec![0x03, 0x11, 0x22, 0x02, 0x33, 0x00]))
    );
    // the buffer starts over afterwards
    assert_eq!(acc.push_byte(0x01), Ok(None));
    assert_eq!(acc.push_byte(COBS_DELIMITER), Ok(Some(vec![0x01, 0x00])));
}

#[test]
fn overflowing_the_buffer_is_an_error_not_a_truncation() {
    let mut acc = FrameAccumulator::new();
    for _ in 0..FRAME_CAPACITY {
        assert_eq!(acc.push_byte(0x55), Ok(None));
    }
    // one more byte without a delimiter does not fit
    assert_eq!(acc.push_byte(0x55), Err(BufferOverflow));
    // the spoiled frame is gone; reassembly resumes cleanly
    assert_eq!(acc.push_byte(0x01), Ok(None));
    assert_eq!(acc.push_byte(COBS_DELIMITER), Ok(Some(vec![0x01, 0x00])));
}

#[test]
fn full_buffer_rejects_even_the_delimiter() {
    let mut acc = FrameAccumulator::new();
    for _ in 0..FRAME_CAPACITY {
        assert_eq!(acc.push_byte(0x55), Ok(None));
    }
    assert_eq!(acc.push_byte(COBS_DELIMITER), Err(BufferOverflow));
}
