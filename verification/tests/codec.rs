use skylink::control::RPYT;
use skylink::errors::SkylinkError;
use skylink::message::decoder::Decoder;
use skylink::message::encoder::{Encoder, END, START};
use skylink::message::{
    decode_frame, decode_payload, encode_payload, example_usage, DecodeError, DecodedPayload,
    EncodeError, Gps, Message, MessageFrame, MessageType, Payload, DATA_LEN, FRAME_LEN,
    TAG_ACCEL, TAG_ALTITUDE, TAG_ATTITUDE, TAG_CONTROL_INPUT, TAG_GPS, TAG_GYRO, TAG_RAW,
};
use skylink::sensor::{Accel, Gyro};
use skylink::telemetry::{Altitude, Attitude};

#[test]
fn attitude_concrete_frame() {
    // encode Attitude{roll: 1.1, pitch: 2.0, yaw: 3.0} with from=100, to=200
    let att = Attitude {
        roll: 1.1f32.to_bits(),
        pitch: 2.0f32.to_bits(),
        yaw: 3.0f32.to_bits(),
    };
    let buf = encode_payload(&Payload::Attitude(att), 100, 200).unwrap();
    assert_eq!(buf.len(), 63);
    assert_eq!(buf[0], 0xA7);
    assert_eq!(buf[1], 100);
    assert_eq!(buf[2], 0);
    assert_eq!(buf[3], 200);
    assert_eq!(buf[4], 0);
    assert_eq!(buf[5], TAG_ATTITUDE);
    assert_eq!(buf[62], 0xAA);

    let (frame, consumed) = decode_frame(&buf).unwrap();
    assert_eq!(consumed, 63);
    assert_eq!(frame.start, START);
    assert_eq!(frame.end, END);
    assert_eq!(frame.message.from, 100);
    assert_eq!(frame.message.to, 200);
    assert_eq!(frame.message.message_type, TAG_ATTITUDE);

    match decode_payload(&frame).unwrap() {
        DecodedPayload::Attitude(a) => {
            assert_eq!(f32::from_bits(a.roll), 1.1);
            assert_eq!(f32::from_bits(a.pitch), 2.0);
            assert_eq!(f32::from_bits(a.yaw), 3.0);
        }
        other => panic!("wrong payload variant: {:?}", other),
    }
}

fn round_trip(p: Payload, from: u16, to: u16) -> Payload {
    let buf = encode_payload(&p, from, to).unwrap();
    assert_eq!(buf.len(), FRAME_LEN);
    let (frame, consumed) = decode_frame(&buf).unwrap();
    assert_eq!(consumed, FRAME_LEN);
    assert_eq!(frame.message.from, from);
    assert_eq!(frame.message.to, to);
    decode_payload(&frame).unwrap()
}

#[test]
fn altitude_round_trip() {
    let alt = Altitude {
        altitude: 1234.56f32.to_bits(),
        climb_rate: 9.87f32.to_bits(),
    };
    match round_trip(Payload::Altitude(alt), 101, 201) {
        DecodedPayload::Altitude(a) => {
            assert_eq!(f32::from_bits(a.altitude), 1234.56);
            assert_eq!(f32::from_bits(a.climb_rate), 9.87);
        }
        other => panic!("wrong payload variant: {:?}", other),
    }
}

#[test]
fn gps_round_trip() {
    let gps = Gps {
        lat: 40.12345f64.to_bits(),
        lon: (-74.98765f64).to_bits(),
        alt: 567.89f32.to_bits(),
    };
    match round_trip(Payload::Gps(gps), 102, 202) {
        DecodedPayload::Gps(g) => {
            assert_eq!(f64::from_bits(g.lat), 40.12345);
            assert_eq!(f64::from_bits(g.lon), -74.98765);
            assert_eq!(f32::from_bits(g.alt), 567.89);
        }
        other => panic!("wrong payload variant: {:?}", other),
    }
}

#[test]
fn control_input_round_trip() {
    let c = RPYT {
        roll: 0.1f32.to_bits(),
        pitch: (-0.2f32).to_bits(),
        yaw: 0.3f32.to_bits(),
        throttle: 0.75f32.to_bits(),
    };
    match round_trip(Payload::ControlInput(c), 1, 2) {
        DecodedPayload::ControlInput(r) => {
            assert_eq!(f32::from_bits(r.roll), 0.1);
            assert_eq!(f32::from_bits(r.pitch), -0.2);
            assert_eq!(f32::from_bits(r.yaw), 0.3);
            assert_eq!(f32::from_bits(r.throttle), 0.75);
        }
        other => panic!("wrong payload variant: {:?}", other),
    }
}

#[test]
fn gyro_round_trip() {
    let g = Gyro {
        x: 0.01f32.to_bits(),
        y: (-0.02f32).to_bits(),
        z: 0.03f32.to_bits(),
    };
    match round_trip(Payload::Gyro(g), 7, 8) {
        DecodedPayload::Gyro(s) => {
            assert_eq!(f32::from_bits(s.x), 0.01);
            assert_eq!(f32::from_bits(s.y), -0.02);
            assert_eq!(f32::from_bits(s.z), 0.03);
        }
        other => panic!("wrong payload variant: {:?}", other),
    }
}

#[test]
fn accel_round_trip() {
    let a = Accel {
        x: 9.81f32.to_bits(),
        y: 0.0f32.to_bits(),
        z: (-9.81f32).to_bits(),
    };
    match round_trip(Payload::Accel(a), 65535, 0) {
        DecodedPayload::Accel(s) => {
            assert_eq!(f32::from_bits(s.x), 9.81);
            assert_eq!(f32::from_bits(s.y), 0.0);
            assert_eq!(f32::from_bits(s.z), -9.81);
        }
        other => panic!("wrong payload variant: {:?}", other),
    }
}

#[test]
fn raw_round_trip() {
    let bytes = vec![0u8, 1, 2, 0xA7, 0xAA, 255, 254];
    match round_trip(Payload::Raw(bytes.clone()), 3, 4) {
        DecodedPayload::Raw(r) => assert_eq!(r, bytes),
        other => panic!("wrong payload variant: {:?}", other),
    }
}

#[test]
fn raw_empty_and_largest_round_trip() {
    match round_trip(Payload::Raw(Vec::new()), 0, 0) {
        DecodedPayload::Raw(r) => assert!(r.is_empty()),
        other => panic!("wrong payload variant: {:?}", other),
    }
    let big = vec![0x5Au8; 54];
    match round_trip(Payload::Raw(big.clone()), 0, 0) {
        DecodedPayload::Raw(r) => assert_eq!(r, big),
        other => panic!("wrong payload variant: {:?}", other),
    }
}

#[test]
fn oversized_payload_rejected() {
    // a payload whose encoding needs 56 bytes (1 length byte + 55) must be
    // rejected outright, with no partial frame
    let too_big = vec![1u8; 55];
    match encode_payload(&Payload::Raw(too_big), 10, 20) {
        Err(EncodeError::PayloadTooLarge(n)) => assert_eq!(n, 56),
        other => panic!("expected PayloadTooLarge, got {:?}", other),
    }
    let much_too_big = vec![2u8; 200];
    match encode_payload(&Payload::Raw(much_too_big), 10, 20) {
        Err(EncodeError::PayloadTooLarge(n)) => assert_eq!(n, 201),
        other => panic!("expected PayloadTooLarge, got {:?}", other),
    }
}

#[test]
fn short_and_invalid_frames() {
    match decode_frame(&[]) {
        Err(DecodeError::FrameTooShort) => {}
        other => panic!("expected FrameTooShort, got {:?}", other),
    }
    match decode_frame(&[0xA7, 1, 2]) {
        Err(DecodeError::FrameTooShort) => {}
        other => panic!("expected FrameTooShort, got {:?}", other),
    }
    let att = Attitude {
        roll: 1.0f32.to_bits(),
        pitch: 2.0f32.to_bits(),
        yaw: 3.0f32.to_bits(),
    };
    let good = encode_payload(&Payload::Attitude(att), 1, 1).unwrap();
    match decode_frame(&good[..62]) {
        Err(DecodeError::FrameTooShort) => {}
        other => panic!("expected FrameTooShort, got {:?}", other),
    }
    let mut bad_start = good.clone();
    bad_start[0] = 0x00;
    match decode_frame(&bad_start) {
        Err(DecodeError::InvalidFrame) => {}
        other => panic!("expected InvalidFrame, got {:?}", other),
    }
    let mut bad_end = good.clone();
    bad_end[62] = 0x00;
    match decode_frame(&bad_end) {
        Err(DecodeError::InvalidFrame) => {}
        other => panic!("expected InvalidFrame, got {:?}", other),
    }
}

#[test]
fn every_single_bit_flip_is_rejected() {
    // flipping any single bit of header, data or integrity byte (not the
    // sentinels) must give CrcMismatch, never silently wrong values
    let gps = Gps {
        lat: 1.25f64.to_bits(),
        lon: (-2.5f64).to_bits(),
        alt: 3.75f32.to_bits(),
    };
    let good = encode_payload(&Payload::Gps(gps), 4242, 2424).unwrap();
    for i in 1..62 {
        for k in 0..8 {
            let mut bad = good.clone();
            bad[i] ^= 1u8 << k;
            match decode_frame(&bad) {
                Err(DecodeError::CrcMismatch) => {}
                other => panic!("byte {} bit {}: expected CrcMismatch, got {:?}", i, k, other),
            }
        }
    }
}

#[test]
fn unknown_message_type() {
    let frame = MessageFrame {
        start: START,
        message: Message {
            from: 1,
            to: 2,
            message_type: 0x99,
            data: vec![0u8; DATA_LEN],
        },
        end: END,
    };
    match decode_payload(&frame) {
        Err(DecodeError::UnknownMessageType(t)) => assert_eq!(t, 0x99),
        other => panic!("expected UnknownMessageType, got {:?}", other),
    }
    // the heartbeat tag carries no registered payload either
    let hb = MessageFrame {
        start: START,
        message: Message {
            from: 1,
            to: 2,
            message_type: MessageType::Heartbeat.tag(),
            data: vec![0u8; DATA_LEN],
        },
        end: END,
    };
    match decode_payload(&hb) {
        Err(DecodeError::UnknownMessageType(t)) => assert_eq!(t, 0x01),
        other => panic!("expected UnknownMessageType, got {:?}", other),
    }
}

#[test]
fn malformed_payloads() {
    // a raw payload whose length byte exceeds the slot is malformed
    let mut data = vec![0u8; DATA_LEN];
    data[0] = 60;
    let frame = MessageFrame {
        start: START,
        message: Message { from: 1, to: 2, message_type: TAG_RAW, data },
        end: END,
    };
    match decode_payload(&frame) {
        Err(DecodeError::MalformedPayload) => {}
        other => panic!("expected MalformedPayload, got {:?}", other),
    }
    // a payload slot without its fixed width is malformed whatever the tag
    let short = MessageFrame {
        start: START,
        message: Message {
            from: 1,
            to: 2,
            message_type: TAG_ATTITUDE,
            data: vec![0u8; 10],
        },
        end: END,
    };
    match decode_payload(&short) {
        Err(DecodeError::MalformedPayload) => {}
        other => panic!("expected MalformedPayload, got {:?}", other),
    }
}

#[test]
fn encoder_reencodes_decoded_message() {
    let att = Attitude {
        roll: 110.0f32.to_bits(),
        pitch: 20.0f32.to_bits(),
        yaw: 30.5f32.to_bits(),
    };
    let buf = encode_payload(&Payload::Attitude(att), 111, 222).unwrap();
    let (frame, _) = decode_frame(&buf).unwrap();
    let enc = Encoder {};
    let again = enc.encode(&frame.message).unwrap();
    assert_eq!(again, buf);
}

#[test]
fn encoder_rejects_wrong_slot_width() {
    let enc = Encoder {};
    let msg = Message {
        from: 1,
        to: 2,
        message_type: TAG_ATTITUDE,
        data: vec![0u8; 10],
    };
    match enc.encode(&msg) {
        Err(SkylinkError::Encoding) => {}
        other => panic!("expected Encoding error, got {:?}", other),
    }
}

#[test]
fn message_type_tags() {
    assert_eq!(MessageType::Heartbeat.tag(), 0x01);
    assert_eq!(MessageType::Attitude.tag(), TAG_ATTITUDE);
    assert_eq!(MessageType::Altitude.tag(), TAG_ALTITUDE);
    assert_eq!(MessageType::Gps.tag(), TAG_GPS);
    assert_eq!(MessageType::ControlInput.tag(), TAG_CONTROL_INPUT);
    assert_eq!(MessageType::Gyro.tag(), TAG_GYRO);
    assert_eq!(MessageType::Accel.tag(), TAG_ACCEL);
    assert_eq!(MessageType::Raw.tag(), TAG_RAW);
}

#[test]
fn error_descriptions() {
    assert_eq!(SkylinkError::CrcMismatch.describe(), "integrity checksum mismatch");
    assert_eq!(SkylinkError::Encoding.describe(), "encoding failed");
    assert_eq!(SkylinkError::InvalidFrame.describe(), "invalid frame");
}

#[test]
fn example_usage_succeeds() {
    assert!(example_usage().is_ok());
}

#[test]
fn distinct_sentinels() {
    assert_ne!(START, END);
    // a fresh decoder is seeking: a non-sentinel byte is discarded
    let mut decoder = Decoder::new();
    assert!(decoder.parse(0x00).is_none());
}
