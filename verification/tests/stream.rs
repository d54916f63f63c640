use skylink::message::decoder::Decoder;
use skylink::message::{encode_payload, Gps, Message, Payload, FRAME_LEN};
use skylink::telemetry::Attitude;

fn gps_frame() -> Vec<u8> {
    let gps = Gps {
        lat: 40.12345f64.to_bits(),
        lon: (-74.98765f64).to_bits(),
        alt: 567.89f32.to_bits(),
    };
    encode_payload(&Payload::Gps(gps), 102, 202).unwrap()
}

fn attitude_frame() -> Vec<u8> {
    let att = Attitude {
        roll: 110.0f32.to_bits(),
        pitch: 20.0f32.to_bits(),
        yaw: 30.5f32.to_bits(),
    };
    encode_payload(&Payload::Attitude(att), 111, 222).unwrap()
}

fn feed_all(decoder: &mut Decoder, wire: &[u8]) -> Vec<(usize, Message)> {
    let mut out = Vec::new();
    for (i, &b) in wire.iter().enumerate() {
        if let Some(m) = decoder.parse(b) {
            out.push((i, m));
        }
    }
    out
}

#[test]
fn streaming_decode_with_junk() {
    // junk, one valid GPS frame, more junk: exactly one frame comes out,
    // and only once the full 63-byte window is buffered
    let frame = gps_frame();
    let mut wire = vec![0xAAu8, 0xBB, 0xCC, 0xAA, 0xBB, 0xCC];
    let junk_len = wire.len();
    wire.extend_from_slice(&frame);
    wire.extend_from_slice(&[0xDE, 0xAD, 0xDE, 0xAD]);

    let mut decoder = Decoder::new();
    let decoded = feed_all(&mut decoder, &wire);
    assert_eq!(decoded.len(), 1);
    let (at, msg) = &decoded[0];
    // emitted exactly on the frame's last byte, never before
    assert_eq!(*at, junk_len + FRAME_LEN - 1);
    assert_eq!(msg.from, 102);
    assert_eq!(msg.to, 202);
    assert_eq!(msg.message_type, 0x04);
    assert_eq!(&msg.data[..], &frame[6..61]);
    let lat = f64::from_bits(u64::from_le_bytes(msg.data[0..8].try_into().unwrap()));
    let lon = f64::from_bits(u64::from_le_bytes(msg.data[8..16].try_into().unwrap()));
    let alt = f32::from_bits(u32::from_le_bytes(msg.data[16..20].try_into().unwrap()));
    assert_eq!(lat, 40.12345);
    assert_eq!(lon, -74.98765);
    assert_eq!(alt, 567.89);
}

#[test]
fn resynchronizes_past_spurious_start_byte() {
    // junk that itself begins with the start sentinel: the decoder first
    // accumulates a window starting in the junk, rejects it, and must still
    // find the real frame buried in that window
    let frame = attitude_frame();
    let mut wire = vec![0xA7u8, 0x01, 0x02];
    wire.extend_from_slice(&frame);
    wire.push(0x00);

    let mut decoder = Decoder::new();
    let decoded = feed_all(&mut decoder, &wire);
    assert_eq!(decoded.len(), 1);
    assert_eq!(decoded[0].1.from, 111);
    assert_eq!(decoded[0].1.to, 222);
}

#[test]
fn two_frames_back_to_back() {
    let f1 = attitude_frame();
    let f2 = gps_frame();
    let mut wire = Vec::new();
    wire.extend_from_slice(&f1);
    wire.extend_from_slice(&f2);

    let mut decoder = Decoder::new();
    let decoded = feed_all(&mut decoder, &wire);
    assert_eq!(decoded.len(), 2);
    assert_eq!(decoded[0].1.from, 111);
    assert_eq!(decoded[1].1.from, 102);
}

#[test]
fn corrupted_frame_dropped_then_valid_frame_decoded() {
    let good = attitude_frame();
    let mut corrupted = good.clone();
    corrupted[10] ^= 0x40; // flip one payload bit in transit
    let mut wire = Vec::new();
    wire.extend_from_slice(&corrupted);
    wire.extend_from_slice(&good);

    let mut decoder = Decoder::new();
    let decoded = feed_all(&mut decoder, &wire);
    assert_eq!(decoded.len(), 1);
    assert_eq!(decoded[0].1.from, 111);
    assert_eq!(&decoded[0].1.data[..], &good[6..61]);
}

#[test]
fn partial_frame_emits_nothing() {
    let frame = attitude_frame();
    let mut decoder = Decoder::new();
    for &b in &frame[..62] {
        assert!(decoder.parse(b).is_none());
    }
}

#[test]
fn pure_junk_emits_nothing() {
    let mut decoder = Decoder::new();
    for i in 0..1000u32 {
        let b = (i % 251) as u8;
        assert!(decoder.parse(b).is_none());
    }
}
