//! End-to-end runs of the protocol engine.

use ramloader::codec::{decode_response, encode_request, encode_response};
use ramloader::loader::{Loader, LoaderError, LoaderEvent};
use ramloader::messages::{Host2TargetMessage, Target2HostMessage};
use ramloader::window::{RAM_PROGRAM_END_ADDRESS, RAM_PROGRAM_START_ADDRESS};

/// Feeds a whole frame and returns the events it caused.
fn feed(loader: &mut Loader, bytes: &[u8]) -> Vec<Result<LoaderEvent, LoaderError>> {
    loader.process_chunk(&bytes.to_vec())
}

/// The one response among the events, decoded; panics when there is
/// none or more than one.
fn sole_response(events: &[Result<LoaderEvent, LoaderError>]) -> Target2HostMessage {
    let mut found = None;
    for event in events {
        if let Ok(LoaderEvent::Respond(frame)) = event {
            assert!(found.is_none(), "more than one response");
            found = Some(decode_response(frame).expect("response frame must decode"));
        }
    }
    found.expect("no response")
}

#[test]
fn write_inside_the_window_lands_in_ram() {
    let mut loader = Loader::new();
    let frame = encode_request(&Host2TargetMessage::Write {
        start_address: RAM_PROGRAM_START_ADDRESS,
        data: vec![0xAA; 16],
    });
    let events = feed(&mut loader, &frame);
    assert_eq!(sole_response(&events), Target2HostMessage::WriteOk);
    for i in 0..16 {
        assert_eq!(loader.ram().read_byte(RAM_PROGRAM_START_ADDRESS + i), 0xAA);
    }
    // the byte after the written range is untouched
    assert_eq!(loader.ram().read_byte(RAM_PROGRAM_START_ADDRESS + 16), 0x00);
}

#[test]
fn write_below_the_window_is_rejected_and_ram_untouched() {
    let mut loader = Loader::new();
    let frame = encode_request(&Host2TargetMessage::Write {
        start_address: RAM_PROGRAM_START_ADDRESS - 1,
        data: vec![0x77; 4],
    });
    let events = feed(&mut loader, &frame);
    assert_eq!(sole_response(&events), Target2HostMessage::InvalidAddress);
    for i in 0..8 {
        assert_eq!(loader.ram().read_byte(RAM_PROGRAM_START_ADDRESS + i), 0x00);
    }
}

#[test]
fn write_reaching_past_the_window_is_rejected_and_ram_untouched() {
    let mut loader = Loader::new();
    let frame = encode_request(&Host2TargetMessage::Write {
        start_address: RAM_PROGRAM_END_ADDRESS - 2,
        data: vec![0x77; 4],
    });
    let events = feed(&mut loader, &frame);
    assert_eq!(sole_response(&events), Target2HostMessage::InvalidAddress);
    assert_eq!(loader.ram().read_byte(RAM_PROGRAM_END_ADDRESS - 2), 0x00);
    assert_eq!(loader.ram().read_byte(RAM_PROGRAM_END_ADDRESS - 1), 0x00);
}

#[test]
fn execute_relocates_the_vector_table_and_silences_the_loader() {
    let mut loader = Loader::new();
    let write = encode_request(&Host2TargetMessage::Write {
        start_address: RAM_PROGRAM_START_ADDRESS,
        data: vec![0x20, 0x21, 0x22, 0x23],
    });
    let events = feed(&mut loader, &write);
    assert_eq!(sole_response(&events), Target2HostMessage::WriteOk);

    let execute = encode_request(&Host2TargetMessage::Execute);
    let events = feed(&mut loader, &execute);
    assert!(matches!(events.last(), Some(Ok(LoaderEvent::Boot))));
    assert_eq!(loader.vector_table_base(), RAM_PROGRAM_START_ADDRESS);
    assert!(loader.is_executing());

    // no byte is ever answered again, not even a whole valid request
    let late = encode_request(&Host2TargetMessage::Write {
        start_address: RAM_PROGRAM_START_ADDRESS,
        data: vec![0xFF; 4],
    });
    let events = feed(&mut loader, &late);
    for event in &events {
        assert_eq!(*event, Ok(LoaderEvent::Accumulating));
    }
    // and the image is exactly as it was written
    assert_eq!(loader.ram().read_byte(RAM_PROGRAM_START_ADDRESS), 0x20);
    assert_eq!(loader.ram().read_byte(RAM_PROGRAM_START_ADDRESS + 3), 0x23);
}

#[test]
fn reassembly_is_chunk_size_independent() {
    let frame = encode_request(&Host2TargetMessage::Write {
        start_address: RAM_PROGRAM_START_ADDRESS + 8,
        data: vec![0x00, 0xAB, 0x00, 0xCD],
    });

    // all at once
    let mut all_at_once = Loader::new();
    let events = feed(&mut all_at_once, &frame);
    assert_eq!(sole_response(&events), Target2HostMessage::WriteOk);

    // one byte at a time
    let mut byte_by_byte = Loader::new();
    let mut responses = Vec::new();
    for &b in &frame {
        match byte_by_byte.push_byte(b) {
            Ok(LoaderEvent::Respond(reply)) => responses.push(reply),
            Ok(LoaderEvent::Accumulating) => {}
            other => panic!("unexpected event: {:?}", other),
        }
    }
    assert_eq!(responses.len(), 1);
    assert_eq!(responses[0], encode_response(&Target2HostMessage::WriteOk));

    // both loaders hold the same memory
    for i in 0..12 {
        assert_eq!(
            all_at_once.ram().read_byte(RAM_PROGRAM_START_ADDRESS + i),
            byte_by_byte.ram().read_byte(RAM_PROGRAM_START_ADDRESS + i)
        );
    }
    assert_eq!(byte_by_byte.ram().read_byte(RAM_PROGRAM_START_ADDRESS + 9), 0xAB);
}

#[test]
fn overflow_drops_the_frame_and_the_loader_recovers() {
    let mut loader = Loader::new();
    let mut events = Vec::new();
    for _ in 0..1500 {
        events.push(loader.push_byte(0x42));
    }
    let overflows = events
        .iter()
        .filter(|e| **e == Err(LoaderError::BufferOverflow))
        .count();
    assert!(overflows >= 1, "no overflow was reported");
    assert!(!events.iter().any(|e| matches!(e, Ok(LoaderEvent::Respond(_)))));

    // a delimiter ends the garbage, which decodes to no request
    let tail = loader.process_chunk(&vec![0x00]);
    assert_eq!(tail, vec![Err(LoaderError::MalformedFrame)]);

    // and a well-formed request still goes through
    let frame = encode_request(&Host2TargetMessage::Write {
        start_address: RAM_PROGRAM_START_ADDRESS,
        data: vec![0x01],
    });
    let events = feed(&mut loader, &frame);
    assert_eq!(sole_response(&events), Target2HostMessage::WriteOk);
}

#[test]
fn malformed_frames_are_reported_not_obeyed() {
    let mut loader = Loader::new();
    // a frame whose stuffing is broken: code byte reaches past the body
    let events = feed(&mut loader, &[0x05, 0x01, 0x00]);
    assert_eq!(events.last(), Some(&Err(LoaderError::MalformedFrame)));
    // ram untouched, loader still listening
    assert_eq!(loader.ram().read_byte(RAM_PROGRAM_START_ADDRESS), 0x00);
    assert!(!loader.is_executing());
}
