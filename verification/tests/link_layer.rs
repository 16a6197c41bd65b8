//! Link layer tests: CRC vectors, escaping, frame encoding and the receiver.

use tapwatch::crc::crc16;
use tapwatch::escape::{escape, unescaped_byte, ESCAPE_BYTE};
use tapwatch::framer::Receiver;
use tapwatch::link::{Address, Frame, GatewayID, Type};

#[test]
fn crc_vectors() {
    assert_eq!(crc16(&[]), 0x8408);
    assert_eq!(crc16(&[0x92]), 0x3B57);
    assert_eq!(crc16(&[0x92, 0x01]), 0x3788);
    assert_eq!(
        crc16(&[0x92, 0x01, 0x01, 0x49, 0x00, 0xFF, 0x7C, 0xDB, 0xC2]),
        0x85A3
    );
    assert_eq!(
        crc16(&[0x12, 0x01, 0x01, 0x48, 0x00, 0x01, 0x18, 0x82, 0x04]),
        0x5DCF
    );
}

#[test]
fn escape_examples() {
    let cases: &[(&[u8], &[u8])] = &[
        (b"", b""),
        (b"~", b"\x7e\x00"),
        (b"hello", b"hello"),
        (b"~hello~", b"\x7e\x00hello\x7e\x00"),
        (
            b"\x7e\xa3\xa4\xa5\x23\x24\x25abcdef",
            b"\x7e\x00\x7e\x05\x7e\x04\x7e\x06\x7e\x02\x7e\x01\x7e\x03abcdef",
        ),
        (
            &[0x92, 0x01, 0x01, 0x49, 0x00, 0xFF, 0x7C, 0xDB, 0xC2, 0xA3, 0x85],
            &[0x92, 0x01, 0x01, 0x49, 0x00, 0xFF, 0x7C, 0xDB, 0xC2, 0x7E, 0x05, 0x85],
        ),
    ];
    for (raw, escaped) in cases {
        let mut out = Vec::new();
        escape(raw, &mut out);
        assert_eq!(&out, escaped, "{:?}", raw);
    }
}

#[test]
fn escape_codes_round_trip() {
    assert_eq!(ESCAPE_BYTE, 0x7e);
    let specials = [0x7eu8, 0x24, 0x23, 0x25, 0xa4, 0xa3, 0xa5];
    for b in specials {
        let mut out = Vec::new();
        escape(&[b], &mut out);
        assert_eq!(out.len(), 2);
        assert_eq!(out[0], 0x7e);
        assert_eq!(unescaped_byte(out[1]), Some(b));
    }
    assert_eq!(unescaped_byte(0x07), None);
    assert_eq!(unescaped_byte(0x08), None);
    assert_eq!(unescaped_byte(0x55), None);
}

#[test]
fn gateway_id_range() {
    assert!(GatewayID::new(0).is_err());
    assert!(GatewayID::new(1).is_ok());
    assert!(GatewayID::new(0x3ffe).is_ok());
    assert!(GatewayID::new(0x3fff).is_err());
    assert!(GatewayID::new(0x8000).is_err());
    assert_eq!(GatewayID::new(0x1201).unwrap().get(), 0x1201);
}

#[test]
fn frame_encoding() {
    let encoded = Frame {
        address: Address::From(0x1201),
        frame_type: Type(0x0149),
        payload: b"\x00\xFF\x7C\xDB\xC2".to_vec(),
    }
    .encode();

    assert_eq!(
        encoded.as_slice(),
        [
            0xFF, 0x7E, 0x07, 0x92, 0x01, 0x01, 0x49, 0x00, 0xFF, 0x7C, 0xDB, 0xC2, 0x7E, 0x05,
            0x85, 0x7E, 0x08
        ]
        .as_slice()
    );
}

#[test]
fn frame_encoding_to_direction() {
    let encoded = Frame {
        address: Address::To(0x1201),
        frame_type: Type(0x0148),
        payload: b"\x00\x01\x18\x83\x04".to_vec(),
    }
    .encode();
    assert_eq!(
        encoded.as_slice(),
        [
            0x00, 0xFF, 0xFF, 0x7E, 0x07, 0x12, 0x01, 0x01, 0x48, 0x00, 0x01, 0x18, 0x83, 0x04,
            0x17, 0x44, 0x7E, 0x08
        ]
        .as_slice()
    );
}

#[test]
fn decode_inverts_encode() {
    let frame = Frame {
        address: Address::From(0x1201),
        frame_type: Type(0x0149),
        payload: b"\x00\xFF\x7C\xDB\xC2".to_vec(),
    };
    let mut rx = Receiver::new();
    let mut frames = Vec::new();
    rx.extend_from_slice(&frame.encode(), &mut frames);
    assert_eq!(frames.len(), 1);
    assert_eq!(frames[0], frame);
    let c = rx.counters();
    assert_eq!(c.frames_emitted, 1);
    assert_eq!(c.crc_failures, 0);
    assert_eq!(c.short_frames, 0);
    assert_eq!(c.resyncs, 0);
    assert_eq!(c.escape_errors, 0);
}

#[test]
fn resync_after_garbage() {
    // Fifty bytes that hold no preamble, then the conformance vector.
    let mut input = Vec::new();
    for i in 0..50u8 {
        input.push(0x10 + (i % 0x30)); // never 0x00, 0xff or 0x7e
    }
    input.extend_from_slice(&[
        0xFF, 0x7E, 0x07, 0x92, 0x01, 0x01, 0x49, 0x00, 0xFF, 0x7C, 0xDB, 0xC2, 0x7E, 0x05, 0x85,
        0x7E, 0x08,
    ]);

    let mut rx = Receiver::new();
    let mut frames = Vec::new();
    rx.extend_from_slice(&input, &mut frames);

    assert_eq!(frames.len(), 1);
    assert_eq!(
        frames[0],
        Frame {
            address: Address::From(0x1201),
            frame_type: Type(0x0149),
            payload: b"\x00\xFF\x7C\xDB\xC2".to_vec(),
        }
    );
    assert_eq!(rx.counters().frames_emitted, 1);
    assert_eq!(rx.counters().bytes_in, input.len() as u64);
}

#[test]
fn short_body_counted() {
    let mut rx = Receiver::new();
    let mut frames = Vec::new();
    // Preamble, a three-byte body, trailer: too short to carry a CRC.
    rx.extend_from_slice(&[0xFF, 0x7E, 0x07, 0x01, 0x02, 0x03, 0x7E, 0x08], &mut frames);
    assert_eq!(frames.len(), 0);
    assert_eq!(rx.counters().short_frames, 1);
}

#[test]
fn crc_failure_counted() {
    let mut corrupted = Frame {
        address: Address::From(0x1201),
        frame_type: Type(0x0149),
        payload: b"\x00\xFF\x7C\xDB\xC2".to_vec(),
    }
    .encode();
    // Flip a payload byte; the stored CRC no longer matches.
    corrupted[7] ^= 0x01;
    let mut rx = Receiver::new();
    let mut frames = Vec::new();
    rx.extend_from_slice(&corrupted, &mut frames);
    assert_eq!(frames.len(), 0);
    assert_eq!(rx.counters().crc_failures, 1);
}

#[test]
fn outcomes_bounded_by_trailers() {
    // Two trailers in the whole stream: one good frame, one corrupted.
    let good = Frame {
        address: Address::To(0x0042),
        frame_type: Type(0x0b00),
        payload: Vec::new(),
    }
    .encode();
    let mut bad = good.clone();
    bad[6] ^= 0xff;
    let mut input = Vec::new();
    input.extend_from_slice(&good);
    input.extend_from_slice(&bad);

    let mut rx = Receiver::new();
    let mut frames = Vec::new();
    rx.extend_from_slice(&input, &mut frames);
    let c = rx.counters();
    let outcomes = c.frames_emitted + c.crc_failures + c.short_frames;
    assert_eq!(c.frames_emitted, 1);
    assert_eq!(c.crc_failures, 1);
    assert!(outcomes <= 2);
}

#[test]
fn overlong_body_resyncs() {
    let mut input = vec![0xFF, 0x7E, 0x07];
    input.extend(std::iter::repeat(0x41u8).take(600));
    input.extend_from_slice(&[0x7E, 0x08]);
    let mut rx = Receiver::new();
    let mut frames = Vec::new();
    rx.extend_from_slice(&input, &mut frames);
    assert_eq!(frames.len(), 0);
    assert_eq!(rx.counters().resyncs, 1);
    assert_eq!(rx.counters().frames_emitted, 0);
}

#[test]
fn illegal_escape_counted() {
    let mut rx = Receiver::new();
    let mut frames = Vec::new();
    rx.extend_from_slice(&[0xFF, 0x7E, 0x07, 0x01, 0x7E, 0x55], &mut frames);
    assert_eq!(rx.counters().escape_errors, 1);
    assert_eq!(rx.counters().resyncs, 1);
    assert_eq!(frames.len(), 0);
}

#[test]
fn interleaved_frames_arrive_in_order() {
    let first = Frame {
        address: Address::To(0x1201),
        frame_type: Type(Type::RECEIVE_REQUEST),
        payload: b"\x00\x01\x18\x83\x04".to_vec(),
    };
    let second = Frame {
        address: Address::From(0x1201),
        frame_type: Type(Type::RECEIVE_RESPONSE),
        payload: b"\x00\xFF\x7C\xDB\xC2".to_vec(),
    };
    let mut input = Vec::new();
    input.extend_from_slice(&first.encode());
    input.extend_from_slice(&[0xff, 0x00]); // idle filler between frames
    input.extend_from_slice(&second.encode());

    let mut rx = Receiver::new();
    let mut frames = Vec::new();
    rx.extend_from_slice(&input, &mut frames);
    assert_eq!(frames, vec![first, second]);
}
