//! Frame assembly: building the 63-byte wire frame from one message.

use vstd::prelude::*;

use crate::errors::SkylinkError;
use crate::message::{frame_bytes_msg, xor_fold, Message, DATA_LEN, FRAME_LEN};

verus! {

/// Sentinel byte marking the start of every frame.
pub const START: u8 = 0xA7;

/// Sentinel byte marking the end of every frame; distinct from `START`.
pub const END: u8 = 0xAA;

/// Appends the two little-endian bytes of `x`.
pub(crate) fn push_le16(v: &mut Vec<u8>, x: u16)
    ensures
        final(v)@ == old(v)@ + crate::message::le16(x),
{
    v.push((x & 0xff) as u8);
    v.push(((x >> 8) & 0xff) as u8);
    proof {
        assert(v@ =~= old(v)@ + crate::message::le16(x));
    }
}

/// Appends the four little-endian bytes of `x`.
pub(crate) fn push_le32(v: &mut Vec<u8>, x: u32)
    ensures
        final(v)@ == old(v)@ + crate::message::le32(x),
{
    v.push((x & 0xff) as u8);
    v.push(((x >> 8) & 0xff) as u8);
    v.push(((x >> 16) & 0xff) as u8);
    v.push(((x >> 24) & 0xff) as u8);
    proof {
        assert(v@ =~= old(v)@ + crate::message::le32(x));
    }
}

/// Appends the eight little-endian bytes of `x`.
pub(crate) fn push_le64(v: &mut Vec<u8>, x: u64)
    ensures
        final(v)@ == old(v)@ + crate::message::le64(x),
{
    v.push((x & 0xff) as u8);
    v.push(((x >> 8) & 0xff) as u8);
    v.push(((x >> 16) & 0xff) as u8);
    v.push(((x >> 24) & 0xff) as u8);
    v.push(((x >> 32) & 0xff) as u8);
    v.push(((x >> 40) & 0xff) as u8);
    v.push(((x >> 48) & 0xff) as u8);
    v.push(((x >> 56) & 0xff) as u8);
    proof {
        assert(v@ =~= old(v)@ + crate::message::le64(x));
    }
}

/// The XOR of the first `n` bytes of `s`.
pub(crate) fn xor_over(s: &[u8], n: usize) -> (r: u8)
    requires
        n <= s@.len(),
    ensures
        r == xor_fold(s@.take(n as int)),
{
    let mut acc: u8 = 0;
    let mut i: usize = 0;
    while i < n
        invariant
            i <= n,
            n <= s@.len(),
            acc == xor_fold(s@.take(i as int)),
        decreases n - i,
    {
        acc = acc ^ s[i];
        proof {
            assert(s@.take(i + 1).drop_last() =~= s@.take(i as int));
            assert(s@.take(i + 1).last() == s@[i as int]);
        }
        i = i + 1;
    }
    acc
}

/// Assembles the complete wire frame for a well-formed message.
pub(crate) fn frame_from_message(msg: &Message) -> (v: Vec<u8>)
    requires
        msg.wf(),
    ensures
        v@ == frame_bytes_msg(msg.from, msg.to, msg.message_type, msg.data@),
        v@.len() == FRAME_LEN,
{
    let ghost body = seq![START] + crate::message::le16(msg.from) + crate::message::le16(msg.to)
        + seq![msg.message_type] + msg.data@;
    let mut v: Vec<u8> = Vec::new();
    v.push(START);
    push_le16(&mut v, msg.from);
    push_le16(&mut v, msg.to);
    v.push(msg.message_type);
    let mut i: usize = 0;
    while i < DATA_LEN
        invariant
            i <= DATA_LEN,
            msg.wf(),
            v@ =~= seq![START] + crate::message::le16(msg.from) + crate::message::le16(msg.to)
                + seq![msg.message_type] + msg.data@.take(i as int),
        decreases DATA_LEN - i,
    {
        v.push(msg.data[i]);
        proof {
            assert(msg.data@.take(i + 1) =~= msg.data@.take(i as int).push(msg.data@[i as int]));
        }
        i = i + 1;
    }
    proof {
        assert(msg.data@.take(DATA_LEN as int) =~= msg.data@);
        assert(v@ =~= body);
    }
    let c = xor_over(v.as_slice(), 61);
    proof {
        assert(v@.take(61) =~= v@);
    }
    v.push(c);
    v.push(END);
    proof {
        assert(v@ =~= body.push(xor_fold(body)).push(END));
    }
    v
}

/// Builder that turns messages into complete wire frames.
pub struct Encoder {}

impl Encoder {
    /// Encodes one message as a 63-byte wire frame. Fails with
    /// `SkylinkError::Encoding` exactly when the message's payload slot
    /// does not have the fixed width.
    pub fn encode(&self, msg: &Message) -> (r: Result<Vec<u8>, SkylinkError>)
        ensures
            match r {
                Ok(v) => msg.wf() && v@ == frame_bytes_msg(
                    msg.from,
                    msg.to,
                    msg.message_type,
                    msg.data@,
                ) && v@.len() == FRAME_LEN,
                Err(e) => !msg.wf() && e == SkylinkError::Encoding,
            },
    {
        if msg.data.len() != DATA_LEN {
            return Err(SkylinkError::Encoding);
        }
        Ok(frame_from_message(msg))
    }
}

} // verus!
