//! Frame codec: the wire frame layout, the type-tagged payload encoding
//! and decoding, and the spec-level model of both.
//!
//! Wire layout (63 bytes, multi-byte integers little-endian):
//! offset 0: start sentinel; 1..3: `from`; 3..5: `to`; 5: payload type tag;
//! 6..61: payload bytes, zero-padded to 55; 61: integrity byte (XOR of
//! bytes 0..61); 62: end sentinel.

pub mod decoder;
pub mod encoder;

use vstd::prelude::*;

use crate::control::RPYT;
use crate::message::encoder::{END, START};
use crate::sensor::{Accel, Gyro};
pub use crate::telemetry::{Altitude, Attitude};

verus! {

/// Width of the fixed, zero-padded payload slot of every frame.
pub const DATA_LEN: usize = 55;

/// Total width of a wire frame: sentinels, routing header, type tag,
/// payload slot and integrity byte.
pub const FRAME_LEN: usize = 63;

/// Type tag of a heartbeat frame (a tag with no registered payload).
pub const TAG_HEARTBEAT: u8 = 0x01;
/// Type tag of an `Attitude` payload.
pub const TAG_ATTITUDE: u8 = 0x02;
/// Type tag of an `Altitude` payload.
pub const TAG_ALTITUDE: u8 = 0x03;
/// Type tag of a `Gps` payload.
pub const TAG_GPS: u8 = 0x04;
/// Type tag of a `ControlInput` payload.
pub const TAG_CONTROL_INPUT: u8 = 0x05;
/// Type tag of a `Gyro` payload.
pub const TAG_GYRO: u8 = 0x06;
/// Type tag of an `Accel` payload.
pub const TAG_ACCEL: u8 = 0x07;
/// Type tag of a `Raw` payload.
pub const TAG_RAW: u8 = 0x08;

/// GPS fix: latitude and longitude as IEEE-754 double-precision bit
/// patterns, altitude as a single-precision bit pattern.
#[derive(Clone, Copy, Debug, PartialEq, Eq, Structural)]
pub struct Gps {
    pub lat: u64,
    pub lon: u64,
    pub alt: u32,
}

/// The closed set of frame type tags.
#[derive(Clone, Copy, Debug, PartialEq, Eq, Structural)]
pub enum MessageType {
    Heartbeat,
    Attitude,
    Altitude,
    Gps,
    ControlInput,
    Gyro,
    Accel,
    Raw,
}

impl MessageType {
    /// The numeric wire tag of this message type.
    pub open spec fn tag_spec(self) -> u8 {
        match self {
            MessageType::Heartbeat => TAG_HEARTBEAT,
            MessageType::Attitude => TAG_ATTITUDE,
            MessageType::Altitude => TAG_ALTITUDE,
            MessageType::Gps => TAG_GPS,
            MessageType::ControlInput => TAG_CONTROL_INPUT,
            MessageType::Gyro => TAG_GYRO,
            MessageType::Accel => TAG_ACCEL,
            MessageType::Raw => TAG_RAW,
        }
    }

    /// The numeric wire tag of this message type.
    pub fn tag(self) -> (t: u8)
        ensures
            t == self.tag_spec(),
    {
        match self {
            MessageType::Heartbeat => TAG_HEARTBEAT,
            MessageType::Attitude => TAG_ATTITUDE,
            MessageType::Altitude => TAG_ALTITUDE,
            MessageType::Gps => TAG_GPS,
            MessageType::ControlInput => TAG_CONTROL_INPUT,
            MessageType::Gyro => TAG_GYRO,
            MessageType::Accel => TAG_ACCEL,
            MessageType::Raw => TAG_RAW,
        }
    }
}

/// Frame content: routing header, type tag and the fixed payload slot.
/// A well-formed message has exactly `DATA_LEN` data bytes.
#[derive(Debug)]
pub struct Message {
    pub from: u16,
    pub to: u16,
    pub message_type: u8,
    pub data: Vec<u8>,
}

impl Message {
    /// Well-formedness: the payload slot has its full fixed width.
    pub open spec fn wf(&self) -> bool {
        self.data@.len() == DATA_LEN
    }
}

/// A complete frame: start sentinel, message, end sentinel. The integrity
/// byte is computed on encode and checked on decode, never stored.
#[derive(Debug)]
pub struct MessageFrame {
    pub start: u8,
    pub message: Message,
    pub end: u8,
}

/// Error returned when a payload cannot be framed.
#[derive(Clone, Copy, Debug, PartialEq, Eq, Structural)]
pub enum EncodeError {
    /// The payload's encoding needs more bytes than the fixed slot holds;
    /// carries the size of the rejected encoding, the very count compared
    /// against the slot width.
    PayloadTooLarge(usize),
}

/// Error returned when bytes cannot be decoded as a frame or payload.
#[derive(Clone, Copy, Debug, PartialEq, Eq, Structural)]
pub enum DecodeError {
    /// Fewer bytes than one fixed-width frame.
    FrameTooShort,
    /// A sentinel byte is missing or wrong.
    InvalidFrame,
    /// The transmitted integrity byte does not match the frame contents.
    CrcMismatch,
    /// The payload slot is inconsistent with the variant's encoding.
    MalformedPayload,
    /// The type tag names no registered payload variant.
    UnknownMessageType(u8),
}

/// One payload value of the closed variant set carried inside a frame.
#[derive(Debug, PartialEq, Eq)]
pub enum Payload {
    Attitude(Attitude),
    Altitude(Altitude),
    Gps(Gps),
    ControlInput(RPYT),
    Gyro(Gyro),
    Accel(Accel),
    /// An uninterpreted byte string, encoded as one length byte followed by
    /// the bytes themselves; the only variant whose encoding can exceed the
    /// payload slot.
    Raw(Vec<u8>),
}

/// A decoded payload has the same shape as an encoded one.
pub type DecodedPayload = Payload;

/// Mathematical model of a payload value.
pub enum PayloadV {
    Attitude { roll: u32, pitch: u32, yaw: u32 },
    Altitude { altitude: u32, climb_rate: u32 },
    Gps { lat: u64, lon: u64, alt: u32 },
    ControlInput { roll: u32, pitch: u32, yaw: u32, throttle: u32 },
    Gyro { x: u32, y: u32, z: u32 },
    Accel { x: u32, y: u32, z: u32 },
    Raw { bytes: Seq<u8> },
}

impl View for Payload {
    type V = PayloadV;

    open spec fn view(&self) -> PayloadV {
        match self {
            Payload::Attitude(a) => PayloadV::Attitude { roll: a.roll, pitch: a.pitch, yaw: a.yaw },
            Payload::Altitude(a) => PayloadV::Altitude {
                altitude: a.altitude,
                climb_rate: a.climb_rate,
            },
            Payload::Gps(g) => PayloadV::Gps { lat: g.lat, lon: g.lon, alt: g.alt },
            Payload::ControlInput(c) => PayloadV::ControlInput {
                roll: c.roll,
                pitch: c.pitch,
                yaw: c.yaw,
                throttle: c.throttle,
            },
            Payload::Gyro(g) => PayloadV::Gyro { x: g.x, y: g.y, z: g.z },
            Payload::Accel(a) => PayloadV::Accel { x: a.x, y: a.y, z: a.z },
            Payload::Raw(v) => PayloadV::Raw { bytes: v@ },
        }
    }
}

// ------------------------- wire format model ------------------------- //

/// The two little-endian bytes of a 16-bit value.
pub open spec fn le16(x: u16) -> Seq<u8> {
    seq![(x & 0xff) as u8, ((x >> 8) & 0xff) as u8]
}

/// The four little-endian bytes of a 32-bit value.
pub open spec fn le32(x: u32) -> Seq<u8> {
    seq![
        (x & 0xff) as u8,
        ((x >> 8) & 0xff) as u8,
        ((x >> 16) & 0xff) as u8,
        ((x >> 24) & 0xff) as u8,
    ]
}

/// The eight little-endian bytes of a 64-bit value.
pub open spec fn le64(x: u64) -> Seq<u8> {
    seq![
        (x & 0xff) as u8,
        ((x >> 8) & 0xff) as u8,
        ((x >> 16) & 0xff) as u8,
        ((x >> 24) & 0xff) as u8,
        ((x >> 32) & 0xff) as u8,
        ((x >> 40) & 0xff) as u8,
        ((x >> 48) & 0xff) as u8,
        ((x >> 56) & 0xff) as u8,
    ]
}

/// The 16-bit value read from two little-endian bytes.
pub open spec fn u16_of(b0: u8, b1: u8) -> u16 {
    (b0 as u16) | ((b1 as u16) << 8)
}

/// The 32-bit value read little-endian at offset `off` of `s`.
pub open spec fn u32_at(s: Seq<u8>, off: int) -> u32 {
    (s[off] as u32) | ((s[off + 1] as u32) << 8) | ((s[off + 2] as u32) << 16) | ((s[off + 3]
        as u32) << 24)
}

/// The 64-bit value read little-endian at offset `off` of `s`.
pub open spec fn u64_at(s: Seq<u8>, off: int) -> u64 {
    (s[off] as u64) | ((s[off + 1] as u64) << 8) | ((s[off + 2] as u64) << 16) | ((s[off + 3]
        as u64) << 24) | ((s[off + 4] as u64) << 32) | ((s[off + 5] as u64) << 40) | ((s[off + 6]
        as u64) << 48) | ((s[off + 7] as u64) << 56)
}

/// The frame integrity value: the XOR of all bytes of `s`. An XOR fold
/// detects every single-bit corruption, see `lemma_bit_flip_rejected`.
pub open spec fn xor_fold(s: Seq<u8>) -> u8
    decreases s.len(),
{
    if s.len() == 0 {
        0
    } else {
        xor_fold(s.drop_last()) ^ s.last()
    }
}

/// The wire tag of a payload variant.
pub open spec fn tag_of(p: PayloadV) -> u8 {
    match p {
        PayloadV::Attitude { .. } => TAG_ATTITUDE,
        PayloadV::Altitude { .. } => TAG_ALTITUDE,
        PayloadV::Gps { .. } => TAG_GPS,
        PayloadV::ControlInput { .. } => TAG_CONTROL_INPUT,
        PayloadV::Gyro { .. } => TAG_GYRO,
        PayloadV::Accel { .. } => TAG_ACCEL,
        PayloadV::Raw { .. } => TAG_RAW,
    }
}

/// The variant encoding of a payload: fixed-width little-endian fields,
/// or one length byte followed by the bytes for `Raw`.
pub open spec fn payload_bytes(p: PayloadV) -> Seq<u8> {
    match p {
        PayloadV::Attitude { roll, pitch, yaw } => le32(roll) + le32(pitch) + le32(yaw),
        PayloadV::Altitude { altitude, climb_rate } => le32(altitude) + le32(climb_rate),
        PayloadV::Gps { lat, lon, alt } => le64(lat) + le64(lon) + le32(alt),
        PayloadV::ControlInput { roll, pitch, yaw, throttle } => le32(roll) + le32(pitch) + le32(
            yaw,
        ) + le32(throttle),
        PayloadV::Gyro { x, y, z } => le32(x) + le32(y) + le32(z),
        PayloadV::Accel { x, y, z } => le32(x) + le32(y) + le32(z),
        PayloadV::Raw { bytes } => seq![bytes.len() as u8] + bytes,
    }
}

/// Whether a payload's encoding fits the fixed payload slot. Every
/// fixed-width variant fits; `Raw` fits iff it has at most 54 bytes.
pub open spec fn payload_fits(p: PayloadV) -> bool {
    payload_bytes(p).len() <= DATA_LEN
}

/// The registry-wide size budget: every fixed-width variant's encoding
/// fits the 55-byte slot by construction; only a `Raw` payload can exceed
/// it, exactly when it holds more than 54 bytes.
pub proof fn lemma_registry_budget(p: PayloadV)
    ensures
        payload_fits(p) <==> match p {
            PayloadV::Raw { bytes } => bytes.len() + 1 <= DATA_LEN,
            _ => true,
        },
        !(p is Raw) ==> payload_bytes(p).len() <= 20,
{
}

/// The number of zero bytes that pad an `n`-byte encoding to the slot width.
pub open spec fn pad_len(n: nat) -> nat {
    if n <= DATA_LEN {
        (DATA_LEN - n) as nat
    } else {
        0
    }
}

/// A payload encoding, zero-padded to the fixed slot width.
pub open spec fn pad_data(s: Seq<u8>) -> Seq<u8> {
    s + Seq::new(pad_len(s.len()), |i: int| 0u8)
}

/// The complete wire frame holding the given header fields and payload
/// slot: sentinels, header, data, and the integrity byte over everything
/// before it.
pub open spec fn frame_bytes_msg(from: u16, to: u16, ty: u8, data: Seq<u8>) -> Seq<u8> {
    let body = seq![START] + le16(from) + le16(to) + seq![ty] + data;
    body.push(xor_fold(body)).push(END)
}

/// The complete wire frame for one payload and routing header.
pub open spec fn frame_bytes_of(p: PayloadV, from: u16, to: u16) -> Seq<u8> {
    frame_bytes_msg(from, to, tag_of(p), pad_data(payload_bytes(p)))
}

/// Whether a 63-byte window is a structurally valid frame: both sentinels
/// in place and the integrity byte equal to the XOR of all bytes before it.
pub open spec fn valid_frame(s: Seq<u8>) -> bool {
    &&& s.len() == FRAME_LEN
    &&& s[0] == START
    &&& s[FRAME_LEN - 1] == END
    &&& s[FRAME_LEN - 2] == xor_fold(s.subrange(0, FRAME_LEN - 2))
}

/// The `from` address of a frame window.
pub open spec fn parse_from(s: Seq<u8>) -> u16 {
    u16_of(s[1], s[2])
}

/// The `to` address of a frame window.
pub open spec fn parse_to(s: Seq<u8>) -> u16 {
    u16_of(s[3], s[4])
}

/// The type tag of a frame window.
pub open spec fn parse_type(s: Seq<u8>) -> u8 {
    s[5]
}

/// The payload slot of a frame window.
pub open spec fn parse_data(s: Seq<u8>) -> Seq<u8> {
    s.subrange(6, 6 + DATA_LEN)
}

/// What decoding a payload slot under a type tag yields: the payload read
/// from the slot's meaningful prefix, or the error owed for that input.
pub open spec fn parse_payload(tag: u8, data: Seq<u8>) -> Result<PayloadV, DecodeError> {
    if tag == TAG_ATTITUDE {
        Ok(
            PayloadV::Attitude {
                roll: u32_at(data, 0),
                pitch: u32_at(data, 4),
                yaw: u32_at(data, 8),
            },
        )
    } else if tag == TAG_ALTITUDE {
        Ok(PayloadV::Altitude { altitude: u32_at(data, 0), climb_rate: u32_at(data, 4) })
    } else if tag == TAG_GPS {
        Ok(PayloadV::Gps { lat: u64_at(data, 0), lon: u64_at(data, 8), alt: u32_at(data, 16) })
    } else if tag == TAG_CONTROL_INPUT {
        Ok(
            PayloadV::ControlInput {
                roll: u32_at(data, 0),
                pitch: u32_at(data, 4),
                yaw: u32_at(data, 8),
                throttle: u32_at(data, 12),
            },
        )
    } else if tag == TAG_GYRO {
        Ok(PayloadV::Gyro { x: u32_at(data, 0), y: u32_at(data, 4), z: u32_at(data, 8) })
    } else if tag == TAG_ACCEL {
        Ok(PayloadV::Accel { x: u32_at(data, 0), y: u32_at(data, 4), z: u32_at(data, 8) })
    } else if tag == TAG_RAW {
        if data[0] <= DATA_LEN - 1 {
            Ok(PayloadV::Raw { bytes: data.subrange(1, 1 + data[0] as int) })
        } else {
            Err(DecodeError::MalformedPayload)
        }
    } else {
        Err(DecodeError::UnknownMessageType(tag))
    }
}

/// How a decoded `Result` is read as a model value.
pub open spec fn result_view(r: Result<Payload, DecodeError>) -> Result<PayloadV, DecodeError> {
    match r {
        Ok(p) => Ok(p@),
        Err(e) => Err(e),
    }
}

// ----------------------------- encoding ------------------------------ //

/// Encodes one payload into its variant byte form.
fn payload_to_bytes(payload: &Payload) -> (r: Result<Vec<u8>, EncodeError>)
    requires
        payload_bytes(payload@).len() <= usize::MAX,
    ensures
        match r {
            Ok(v) => payload_fits(payload@) && v@ == payload_bytes(payload@),
            Err(EncodeError::PayloadTooLarge(n)) => !payload_fits(payload@) && n == payload_bytes(
                payload@,
            ).len(),
        },
{
    let mut v: Vec<u8> = Vec::new();
    match payload {
        Payload::Attitude(a) => {
            encoder::push_le32(&mut v, a.roll);
            encoder::push_le32(&mut v, a.pitch);
            encoder::push_le32(&mut v, a.yaw);
        },
        Payload::Altitude(a) => {
            encoder::push_le32(&mut v, a.altitude);
            encoder::push_le32(&mut v, a.climb_rate);
        },
        Payload::Gps(g) => {
            encoder::push_le64(&mut v, g.lat);
            encoder::push_le64(&mut v, g.lon);
            encoder::push_le32(&mut v, g.alt);
        },
        Payload::ControlInput(c) => {
            encoder::push_le32(&mut v, c.roll);
            encoder::push_le32(&mut v, c.pitch);
            encoder::push_le32(&mut v, c.yaw);
            encoder::push_le32(&mut v, c.throttle);
        },
        Payload::Gyro(g) => {
            encoder::push_le32(&mut v, g.x);
            encoder::push_le32(&mut v, g.y);
            encoder::push_le32(&mut v, g.z);
        },
        Payload::Accel(a) => {
            encoder::push_le32(&mut v, a.x);
            encoder::push_le32(&mut v, a.y);
            encoder::push_le32(&mut v, a.z);
        },
        Payload::Raw(bytes) => {
            if bytes.len() > DATA_LEN - 1 {
                // the encoding is one length byte followed by the bytes
                return Err(EncodeError::PayloadTooLarge(bytes.len() + 1));
            }
            v.push(bytes.len() as u8);
            let mut i: usize = 0;
            while i < bytes.len()
                invariant
                    i <= bytes@.len(),
                    bytes@.len() <= DATA_LEN - 1,
                    v@ == seq![bytes@.len() as u8] + bytes@.take(i as int),
                decreases bytes@.len() - i,
            {
                v.push(bytes[i]);
                proof {
                    assert(seq![bytes@.len() as u8] + bytes@.take(i + 1) =~= (
                    seq![bytes@.len() as u8] + bytes@.take(i as int)).push(bytes@[i as int]));
                }
                i = i + 1;
            }
            proof {
                assert(bytes@.take(bytes@.len() as int) =~= bytes@);
            }
        },
    }
    proof {
        assert(v@ =~= payload_bytes(payload@));
    }
    Ok(v)
}

/// Encodes the given payload as a complete 63-byte wire frame with the
/// given routing addresses. Fails with `PayloadTooLarge` exactly when the
/// payload's encoding exceeds the fixed 55-byte slot, carrying the size of
/// that encoding, and then emits no frame at all; otherwise the result is
/// exactly `frame_bytes_of`, always of the fixed total frame length. The
/// size check happens before anything is copied into the data slot.
pub fn encode_payload(payload: &Payload, from: u16, to: u16) -> (r: Result<Vec<u8>, EncodeError>)
    requires
        payload_bytes(payload@).len() <= usize::MAX,
    ensures
        match r {
            Ok(v) => payload_fits(payload@) && v@ == frame_bytes_of(payload@, from, to)
                && v@.len() == FRAME_LEN,
            Err(EncodeError::PayloadTooLarge(n)) => !payload_fits(payload@) && n == payload_bytes(
                payload@,
            ).len(),
        },
{
    let mut data = match payload_to_bytes(payload) {
        Ok(v) => v,
        Err(e) => {
            return Err(e);
        },
    };
    let ghost pb = payload_bytes(payload@);
    while data.len() < DATA_LEN
        invariant
            pb.len() <= data@.len() <= DATA_LEN,
            data@.subrange(0, pb.len() as int) =~= pb,
            forall|j: int| pb.len() <= j < data@.len() ==> data@[j] == 0u8,
        decreases DATA_LEN - data@.len(),
    {
        data.push(0u8);
    }
    proof {
        assert(data@ =~= pad_data(pb));
    }
    let tag = match payload {
        Payload::Attitude(_) => TAG_ATTITUDE,
        Payload::Altitude(_) => TAG_ALTITUDE,
        Payload::Gps(_) => TAG_GPS,
        Payload::ControlInput(_) => TAG_CONTROL_INPUT,
        Payload::Gyro(_) => TAG_GYRO,
        Payload::Accel(_) => TAG_ACCEL,
        Payload::Raw(_) => TAG_RAW,
    };
    let msg = Message { from, to, message_type: tag, data };
    Ok(encoder::frame_from_message(&msg))
}

// ----------------------------- decoding ------------------------------ //

/// Reads a 16-bit little-endian value at `off`.
fn read_u16_at(s: &[u8], off: usize) -> (x: u16)
    requires
        off + 2 <= s@.len(),
    ensures
        x == u16_of(s@[off as int], s@[off + 1]),
{
    (s[off] as u16) | ((s[off + 1] as u16) << 8)
}

/// Reads a 32-bit little-endian value at `off`.
fn read_u32_at(s: &[u8], off: usize) -> (x: u32)
    requires
        off + 4 <= s@.len(),
    ensures
        x == u32_at(s@, off as int),
{
    (s[off] as u32) | ((s[off + 1] as u32) << 8) | ((s[off + 2] as u32) << 16) | ((s[off + 3]
        as u32) << 24)
}

/// Reads a 64-bit little-endian value at `off`.
fn read_u64_at(s: &[u8], off: usize) -> (x: u64)
    requires
        off + 8 <= s@.len(),
    ensures
        x == u64_at(s@, off as int),
{
    (s[off] as u64) | ((s[off + 1] as u64) << 8) | ((s[off + 2] as u64) << 16) | ((s[off + 3]
        as u64) << 24) | ((s[off + 4] as u64) << 32) | ((s[off + 5] as u64) << 40) | ((s[off + 6]
        as u64) << 48) | ((s[off + 7] as u64) << 56)
}

/// Whether a message carries exactly the fields of a 63-byte window.
pub open spec fn msg_matches(m: Message, w: Seq<u8>) -> bool {
    &&& m.from == parse_from(w)
    &&& m.to == parse_to(w)
    &&& m.message_type == parse_type(w)
    &&& m.data@ == parse_data(w)
}

/// Whether a message frame carries exactly the fields of a 63-byte window.
pub open spec fn frame_matches(f: MessageFrame, w: Seq<u8>) -> bool {
    &&& f.start == w[0]
    &&& f.end == w[FRAME_LEN - 1]
    &&& msg_matches(f.message, w)
}

/// Decodes one complete frame from the front of `incoming`.
///
/// Succeeds iff at least one fixed-width frame's worth of bytes is present
/// and the first 63 bytes form a structurally valid frame; then exactly 63
/// bytes are consumed and the returned frame holds the window's fields.
/// The error names the first check that failed: `FrameTooShort` for too few
/// bytes, `InvalidFrame` for a wrong sentinel, `CrcMismatch` for a wrong
/// integrity byte.
pub fn decode_frame(incoming: &[u8]) -> (r: Result<(MessageFrame, usize), DecodeError>)
    ensures
        match r {
            Ok((frame, n)) => {
                &&& incoming@.len() >= FRAME_LEN
                &&& valid_frame(incoming@.take(FRAME_LEN as int))
                &&& n == FRAME_LEN
                &&& frame.message.wf()
                &&& frame_matches(frame, incoming@.take(FRAME_LEN as int))
            },
            Err(DecodeError::FrameTooShort) => incoming@.len() < FRAME_LEN,
            Err(DecodeError::InvalidFrame) => incoming@.len() >= FRAME_LEN && (incoming@[0]
                != START || incoming@[FRAME_LEN - 1] != END),
            Err(DecodeError::CrcMismatch) => incoming@.len() >= FRAME_LEN && incoming@[0] == START
                && incoming@[FRAME_LEN - 1] == END && incoming@[FRAME_LEN - 2] != xor_fold(
                incoming@.take(FRAME_LEN - 2),
            ),
            _ => false,
        },
{
    if incoming.len() < FRAME_LEN {
        return Err(DecodeError::FrameTooShort);
    }
    if incoming[0] != START || incoming[FRAME_LEN - 1] != END {
        return Err(DecodeError::InvalidFrame);
    }
    let c = encoder::xor_over(incoming, FRAME_LEN - 2);
    if c != incoming[FRAME_LEN - 2] {
        return Err(DecodeError::CrcMismatch);
    }
    let from = read_u16_at(incoming, 1);
    let to = read_u16_at(incoming, 3);
    let ty = incoming[5];
    let mut data: Vec<u8> = Vec::new();
    let mut i: usize = 6;
    while i < 6 + DATA_LEN
        invariant
            6 <= i <= 6 + DATA_LEN,
            incoming@.len() >= FRAME_LEN,
            data@ == incoming@.subrange(6, i as int),
        decreases 6 + DATA_LEN - i,
    {
        data.push(incoming[i]);
        proof {
            assert(incoming@.subrange(6, i + 1) =~= incoming@.subrange(6, i as int).push(
                incoming@[i as int],
            ));
        }
        i = i + 1;
    }
    let ghost w = incoming@.take(FRAME_LEN as int);
    proof {
        assert(w.subrange(0, FRAME_LEN - 2) =~= incoming@.take(FRAME_LEN - 2));
        assert(parse_data(w) =~= incoming@.subrange(6, (6 + DATA_LEN) as int));
    }
    let frame = MessageFrame {
        start: incoming[0],
        message: Message { from, to, message_type: ty, data },
        end: incoming[FRAME_LEN - 1],
    };
    Ok((frame, FRAME_LEN))
}

/// Decodes the payload inside the frame's message, dispatching on the type
/// tag. The result is exactly what `parse_payload` says for the frame's
/// tag and payload slot; a frame whose slot does not have the fixed width
/// is rejected as `MalformedPayload`.
pub fn decode_payload(frame: &MessageFrame) -> (r: Result<DecodedPayload, DecodeError>)
    ensures
        frame.message.wf() ==> result_view(r) == parse_payload(
            frame.message.message_type,
            frame.message.data@,
        ),
        !frame.message.wf() ==> r == Err::<DecodedPayload, DecodeError>(
            DecodeError::MalformedPayload,
        ),
{
    if frame.message.data.len() != DATA_LEN {
        return Err(DecodeError::MalformedPayload);
    }
    let d = frame.message.data.as_slice();
    let t = frame.message.message_type;
    if t == TAG_ATTITUDE {
        Ok(
            Payload::Attitude(
                Attitude {
                    roll: read_u32_at(d, 0),
                    pitch: read_u32_at(d, 4),
                    yaw: read_u32_at(d, 8),
                },
            ),
        )
    } else if t == TAG_ALTITUDE {
        Ok(Payload::Altitude(Altitude { altitude: read_u32_at(d, 0), climb_rate: read_u32_at(d, 4) }))
    } else if t == TAG_GPS {
        Ok(
            Payload::Gps(
                Gps { lat: read_u64_at(d, 0), lon: read_u64_at(d, 8), alt: read_u32_at(d, 16) },
            ),
        )
    } else if t == TAG_CONTROL_INPUT {
        Ok(
            Payload::ControlInput(
                RPYT {
                    roll: read_u32_at(d, 0),
                    pitch: read_u32_at(d, 4),
                    yaw: read_u32_at(d, 8),
                    throttle: read_u32_at(d, 12),
                },
            ),
        )
    } else if t == TAG_GYRO {
        Ok(Payload::Gyro(Gyro { x: read_u32_at(d, 0), y: read_u32_at(d, 4), z: read_u32_at(d, 8) }))
    } else if t == TAG_ACCEL {
        Ok(Payload::Accel(Accel { x: read_u32_at(d, 0), y: read_u32_at(d, 4), z: read_u32_at(d, 8) }))
    } else if t == TAG_RAW {
        let n = d[0] as usize;
        if n > DATA_LEN - 1 {
            return Err(DecodeError::MalformedPayload);
        }
        let mut v: Vec<u8> = Vec::new();
        let mut i: usize = 1;
        while i < 1 + n
            invariant
                1 <= i <= 1 + n,
                n <= DATA_LEN - 1,
                d@.len() == DATA_LEN,
                v@ == d@.subrange(1, i as int),
            decreases 1 + n - i,
        {
            v.push(d[i]);
            proof {
                assert(d@.subrange(1, i + 1) =~= d@.subrange(1, i as int).push(d@[i as int]));
            }
            i = i + 1;
        }
        Ok(Payload::Raw(v))
    } else {
        Err(DecodeError::UnknownMessageType(t))
    }
}

// ------------------------------ laws ---------------------------------- //

/// Reading two little-endian bytes of a 16-bit value gives the value back.
proof fn lemma_le16_read(s: Seq<u8>, off: int, x: u16)
    requires
        0 <= off,
        off + 2 <= s.len(),
        s[off] == le16(x)[0],
        s[off + 1] == le16(x)[1],
    ensures
        u16_of(s[off], s[off + 1]) == x,
{
    assert((((x & 0xff) as u8) as u16) | (((((x >> 8) & 0xff) as u8) as u16) << 8) == x)
        by (bit_vector);
}

/// Reading four little-endian bytes of a 32-bit value gives the value back.
proof fn lemma_le32_read(s: Seq<u8>, off: int, x: u32)
    requires
        0 <= off,
        off + 4 <= s.len(),
        s.subrange(off, off + 4) == le32(x),
    ensures
        u32_at(s, off) == x,
{
    assert(s[off] == le32(x)[0]);
    assert(s[off + 1] == le32(x)[1]);
    assert(s[off + 2] == le32(x)[2]);
    assert(s[off + 3] == le32(x)[3]);
    assert((((x & 0xff) as u8) as u32) | (((((x >> 8) & 0xff) as u8) as u32) << 8) | (((((x >> 16)
        & 0xff) as u8) as u32) << 16) | (((((x >> 24) & 0xff) as u8) as u32) << 24) == x)
        by (bit_vector);
}

/// Reading eight little-endian bytes of a 64-bit value gives the value back.
proof fn lemma_le64_read(s: Seq<u8>, off: int, x: u64)
    requires
        0 <= off,
        off + 8 <= s.len(),
        s.subrange(off, off + 8) == le64(x),
    ensures
        u64_at(s, off) == x,
{
    assert(s[off] == le64(x)[0]);
    assert(s[off + 1] == le64(x)[1]);
    assert(s[off + 2] == le64(x)[2]);
    assert(s[off + 3] == le64(x)[3]);
    assert(s[off + 4] == le64(x)[4]);
    assert(s[off + 5] == le64(x)[5]);
    assert(s[off + 6] == le64(x)[6]);
    assert(s[off + 7] == le64(x)[7]);
    assert((((x & 0xff) as u8) as u64) | (((((x >> 8) & 0xff) as u8) as u64) << 8) | (((((x >> 16)
        & 0xff) as u8) as u64) << 16) | (((((x >> 24) & 0xff) as u8) as u64) << 24) | (((((x >> 32)
        & 0xff) as u8) as u64) << 32) | (((((x >> 40) & 0xff) as u8) as u64) << 40) | (((((x >> 48)
        & 0xff) as u8) as u64) << 48) | (((((x >> 56) & 0xff) as u8) as u64) << 56) == x)
        by (bit_vector);
}

/// Round trip: for every payload whose encoding fits the slot and all
/// routing addresses, the encoded frame is structurally valid, has the
/// fixed length, and parsing its header fields and payload slot gives the
/// original addresses, tag and payload back, bit for bit.
pub proof fn lemma_round_trip(p: PayloadV, from: u16, to: u16)
    requires
        payload_fits(p),
    ensures
        ({
            let fb = frame_bytes_of(p, from, to);
            &&& fb.len() == FRAME_LEN
            &&& valid_frame(fb)
            &&& parse_from(fb) == from
            &&& parse_to(fb) == to
            &&& parse_type(fb) == tag_of(p)
            &&& parse_payload(tag_of(p), parse_data(fb)) == Ok::<PayloadV, DecodeError>(p)
        }),
{
    let pb = payload_bytes(p);
    let data = pad_data(pb);
    assert(data.len() == DATA_LEN);
    let body = seq![START] + le16(from) + le16(to) + seq![tag_of(p)] + data;
    assert(body.len() == 61);
    let fb = frame_bytes_of(p, from, to);
    assert(fb == body.push(xor_fold(body)).push(END));
    assert(fb.len() == FRAME_LEN);
    assert(fb[62] == END);
    assert(fb[61] == xor_fold(body));
    assert(fb.subrange(0, FRAME_LEN - 2) =~= body);
    assert(fb[0] == START);
    assert(valid_frame(fb));

    assert(fb[1] == le16(from)[0]);
    assert(fb[2] == le16(from)[1]);
    lemma_le16_read(fb, 1, from);
    assert(fb[3] == le16(to)[0]);
    assert(fb[4] == le16(to)[1]);
    lemma_le16_read(fb, 3, to);
    assert(fb[5] == tag_of(p));

    let d = parse_data(fb);
    assert(d =~= data);
    assert(forall|k: int| 0 <= k < pb.len() ==> d[k] == pb[k]);
    match p {
        PayloadV::Attitude { roll, pitch, yaw } => {
            assert(d.subrange(0, 4) =~= le32(roll));
            assert(d.subrange(4, 8) =~= le32(pitch));
            assert(d.subrange(8, 12) =~= le32(yaw));
            lemma_le32_read(d, 0, roll);
            lemma_le32_read(d, 4, pitch);
            lemma_le32_read(d, 8, yaw);
        },
        PayloadV::Altitude { altitude, climb_rate } => {
            assert(d.subrange(0, 4) =~= le32(altitude));
            assert(d.subrange(4, 8) =~= le32(climb_rate));
            lemma_le32_read(d, 0, altitude);
            lemma_le32_read(d, 4, climb_rate);
        },
        PayloadV::Gps { lat, lon, alt } => {
            assert(d.subrange(0, 8) =~= le64(lat));
            assert(d.subrange(8, 16) =~= le64(lon));
            assert(d.subrange(16, 20) =~= le32(alt));
            lemma_le64_read(d, 0, lat);
            lemma_le64_read(d, 8, lon);
            lemma_le32_read(d, 16, alt);
        },
        PayloadV::ControlInput { roll, pitch, yaw, throttle } => {
            assert(d.subrange(0, 4) =~= le32(roll));
            assert(d.subrange(4, 8) =~= le32(pitch));
            assert(d.subrange(8, 12) =~= le32(yaw));
            assert(d.subrange(12, 16) =~= le32(throttle));
            lemma_le32_read(d, 0, roll);
            lemma_le32_read(d, 4, pitch);
            lemma_le32_read(d, 8, yaw);
            lemma_le32_read(d, 12, throttle);
        },
        PayloadV::Gyro { x, y, z } => {
            assert(d.subrange(0, 4) =~= le32(x));
            assert(d.subrange(4, 8) =~= le32(y));
            assert(d.subrange(8, 12) =~= le32(z));
            lemma_le32_read(d, 0, x);
            lemma_le32_read(d, 4, y);
            lemma_le32_read(d, 8, z);
        },
        PayloadV::Accel { x, y, z } => {
            assert(d.subrange(0, 4) =~= le32(x));
            assert(d.subrange(4, 8) =~= le32(y));
            assert(d.subrange(8, 12) =~= le32(z));
            lemma_le32_read(d, 0, x);
            lemma_le32_read(d, 4, y);
            lemma_le32_read(d, 8, z);
        },
        PayloadV::Raw { bytes } => {
            assert(pb == seq![bytes.len() as u8] + bytes);
            assert(pb.len() == 1 + bytes.len());
            assert(bytes.len() <= DATA_LEN - 1);
            assert(d[0] == bytes.len() as u8);
            assert(d[0] as int == bytes.len() as int);
            assert(d.subrange(1, 1 + d[0] as int) =~= bytes);
        },
    }
}

/// Demonstration of a full encode-decode round trip: frames an attitude
/// payload (roll 1.0, pitch 2.0, yaw 3.0 as single-precision bit patterns),
/// decodes the frame and its payload back, and checks every field. The
/// contract proves the demonstration can never fail.
pub fn example_usage() -> (r: Result<(), DecodeError>)
    ensures
        r is Ok,
{
    let att = Attitude { roll: 0x3F80_0000, pitch: 0x4000_0000, yaw: 0x4040_0000 };
    let payload = Payload::Attitude(att);
    proof {
        lemma_round_trip(payload@, 111, 222);
    }
    let encoded = match encode_payload(&payload, 111, 222) {
        Ok(v) => v,
        Err(_) => {
            return Err(DecodeError::InvalidFrame);
        },
    };
    proof {
        assert(encoded@.take(FRAME_LEN as int) =~= encoded@);
    }
    let (frame, consumed) = match decode_frame(encoded.as_slice()) {
        Ok(p) => p,
        Err(_) => {
            return Err(DecodeError::InvalidFrame);
        },
    };
    assert(consumed == encoded.len());
    assert(frame.message.from == 111 && frame.message.to == 222);
    let decoded = match decode_payload(&frame) {
        Ok(p) => p,
        Err(e) => {
            return Err(e);
        },
    };
    match decoded {
        Payload::Attitude(a) => {
            assert(a.roll == 0x3F80_0000u32);
            assert(a.pitch == 0x4000_0000u32);
            assert(a.yaw == 0x4040_0000u32);
            Ok(())
        },
        _ => Err(DecodeError::UnknownMessageType(TAG_ATTITUDE)),
    }
}

/// Changing one byte of a sequence changes its XOR fold by the XOR of the
/// old and new byte values.
proof fn lemma_xor_fold_update(s: Seq<u8>, i: int, v: u8)
    requires
        0 <= i < s.len(),
    ensures
        xor_fold(s.update(i, v)) == xor_fold(s) ^ s[i] ^ v,
    decreases s.len(),
{
    let t = s.update(i, v);
    if i == s.len() - 1 {
        assert(t.drop_last() =~= s.drop_last());
        assert(t.last() == v);
        let a = xor_fold(s.drop_last());
        let b = s.last();
        assert(a ^ v == (a ^ b) ^ b ^ v) by (bit_vector);
    } else {
        assert(t.drop_last() =~= s.drop_last().update(i, v));
        assert(t.last() == s.last());
        lemma_xor_fold_update(s.drop_last(), i, v);
        let a = xor_fold(s.drop_last());
        let b = s.drop_last()[i];
        let l = s.last();
        assert((a ^ b ^ v) ^ l == (a ^ l) ^ b ^ v) by (bit_vector);
        assert(s.drop_last()[i] == s[i]);
    }
}

/// Corruption rejection: flipping any single bit of a valid frame's
/// header, payload slot or integrity byte (any byte but the sentinels)
/// leaves the sentinels intact but breaks the integrity check, so decoding
/// rejects the frame as a checksum mismatch rather than returning wrong
/// values.
pub proof fn lemma_bit_flip_rejected(s: Seq<u8>, i: int, k: u8)
    requires
        valid_frame(s),
        1 <= i < FRAME_LEN - 1,
        k < 8,
    ensures
        ({
            let s2 = s.update(i, s[i] ^ (1u8 << k));
            &&& s2.len() == FRAME_LEN
            &&& s2[0] == START
            &&& s2[FRAME_LEN - 1] == END
            &&& s2[FRAME_LEN - 2] != xor_fold(s2.subrange(0, FRAME_LEN - 2))
            &&& !valid_frame(s2)
        }),
{
    let m = (1u8 << k);
    assert(k < 8 ==> (1u8 << k) != 0) by (bit_vector);
    let s2 = s.update(i, s[i] ^ m);
    let x = s[i];
    if i == FRAME_LEN - 2 {
        assert(s2.subrange(0, FRAME_LEN - 2) =~= s.subrange(0, FRAME_LEN - 2));
        assert(m != 0 ==> (x ^ m) != x) by (bit_vector);
    } else {
        assert(s2.subrange(0, FRAME_LEN - 2) =~= s.subrange(0, FRAME_LEN - 2).update(i, x ^ m));
        lemma_xor_fold_update(s.subrange(0, FRAME_LEN - 2), i, x ^ m);
        assert(s.subrange(0, FRAME_LEN - 2)[i] == x);
        let f = xor_fold(s.subrange(0, FRAME_LEN - 2));
        assert(m != 0 ==> f ^ x ^ (x ^ m) != f) by (bit_vector);
        assert(s2[FRAME_LEN - 2] == s[FRAME_LEN - 2]);
    }
}

} // verus!
