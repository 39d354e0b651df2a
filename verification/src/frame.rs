//! What goes over the wire: handshake packets behind their length, then frames.
//!
//! A frame is the length of what is encrypted, the index of the message, the nonce and what
//! is encrypted with its tag.
use crate::bytes::{
    be16, be16_goes_by_places, be16_reads_back, be32, be32_goes_by_places, be32_reads_back, copy_from, extend, from_be16, from_be32, push_be16, push_be32,
    read_be16, read_be32,
};
use crate::primitives::NONCE_LEN;
use vstd::prelude::*;

verus! {

/// How many bytes of a frame stand before what is encrypted: the length, the index and the
/// nonce.
pub const FRAME_HEADER_LEN: usize = 20;

/// How many bytes of a frame stand before the nonce.
pub const FRAME_PREFIX_LEN: usize = 8;

/// The index of a frame that is no message of the ratchet.
pub const NO_RATCHET: u32 = 0xFFFF_FFFF;

/// Why bytes are no frame, or cannot be put in one.
#[derive(Clone, Copy, Debug, PartialEq, Eq, Structural)]
pub enum FrameError {
    TooShort,
    LengthMismatch,
    TooLong,
}

/// The frame with an index and a nonce with what is encrypted behind it.
pub open spec fn frame_bytes(index: u32, data: Seq<u8>) -> Seq<u8> {
    be32((data.len() - NONCE_LEN) as u32) + be32(index) + data
}

/// The index of a frame, and its nonce with what is encrypted.
pub open spec fn framed(frame: Seq<u8>) -> Result<(u32, Seq<u8>), FrameError> {
    if frame.len() < FRAME_HEADER_LEN {
        Err(FrameError::TooShort)
    } else if from_be32(frame.take(4)) != frame.len() - FRAME_HEADER_LEN {
        Err(FrameError::LengthMismatch)
    } else {
        Ok((from_be32(frame.subrange(4, 8)) as u32, frame.skip(FRAME_PREFIX_LEN as int)))
    }
}

/// A handshake packet as it is sent: behind its length.
pub open spec fn handshake_bytes(packet: Seq<u8>) -> Seq<u8> {
    be16(packet.len() as u16) + packet
}

/// A frame reads back as it was made.
pub proof fn frame_reads_back(index: u32, data: Seq<u8>)
    requires
        NONCE_LEN <= data.len() <= NONCE_LEN + u32::MAX,
    ensures
        framed(frame_bytes(index, data)) == Ok::<(u32, Seq<u8>), FrameError>((index, data)),
{
    let len = (data.len() - NONCE_LEN) as u32;
    let frame = frame_bytes(index, data);
    be32_reads_back(len);
    be32_reads_back(index);
    assert(frame.take(4) =~= be32(len));
    assert(frame.subrange(4, 8) =~= be32(index));
    assert(frame.skip(FRAME_PREFIX_LEN as int) =~= data);
}

/// A frame header, and as many bytes behind it as it says, are a frame.
pub proof fn header_says_length(header: Seq<u8>, body: Seq<u8>)
    requires
        header.len() == FRAME_HEADER_LEN,
        body.len() == from_be32(header.take(4)),
    ensures
        framed(header + body) == Ok::<(u32, Seq<u8>), FrameError>(
            (from_be32(header.subrange(4, 8)) as u32, header.skip(FRAME_PREFIX_LEN as int) + body),
        ),
{
    let frame = header + body;
    assert(frame.take(4) =~= header.take(4));
    assert(frame.subrange(4, 8) =~= header.subrange(4, 8));
    assert(frame.skip(FRAME_PREFIX_LEN as int) =~= header.skip(FRAME_PREFIX_LEN as int) + body);
}

/// A handshake packet reads back as it was sent.
pub proof fn handshake_reads_back(packet: Seq<u8>)
    requires
        packet.len() <= u16::MAX,
    ensures
        from_be16(handshake_bytes(packet).take(2)) == packet.len(),
        handshake_bytes(packet).skip(2) == packet,
{
    be16_reads_back(packet.len() as u16);
    assert(handshake_bytes(packet).take(2) =~= be16(packet.len() as u16));
    assert(handshake_bytes(packet).skip(2) =~= packet);
}

/// Makes the frame for a nonce with what is encrypted behind it.
pub fn make_frame(index: u32, data: &[u8]) -> (res: Result<Vec<u8>, FrameError>)
    ensures
        match res {
            Ok(frame) => NONCE_LEN <= data@.len() <= NONCE_LEN + u32::MAX && frame@ == frame_bytes(index, data@),
            Err(e) => if data@.len() < NONCE_LEN {
                e == FrameError::TooShort
            } else {
                data@.len() > NONCE_LEN + u32::MAX && e == FrameError::TooLong
            },
        },
{
    if data.len() < NONCE_LEN {
        return Err(FrameError::TooShort);
    }
    let len: usize = data.len() - NONCE_LEN;
    if len as u64 > u32::MAX as u64 {
        return Err(FrameError::TooLong);
    }
    let mut frame: Vec<u8> = Vec::new();
    push_be32(&mut frame, len as u32);
    push_be32(&mut frame, index);
    extend(&mut frame, data);
    assert(frame@ =~= frame_bytes(index, data@));
    Ok(frame)
}

/// Takes a frame apart: its index, and its nonce with what is encrypted.
pub fn read_frame(frame: &[u8]) -> (res: Result<(u32, Vec<u8>), FrameError>)
    ensures
        match res {
            Ok((index, data)) => framed(frame@) == Ok::<(u32, Seq<u8>), FrameError>((index, data@)),
            Err(e) => framed(frame@) == Err::<(u32, Seq<u8>), FrameError>(e),
        },
{
    if frame.len() < FRAME_HEADER_LEN {
        return Err(FrameError::TooShort);
    }
    let len: u32 = read_be32(frame, 0);
    assert(frame@.subrange(0, 4) =~= frame@.take(4));
    if len as u64 != (frame.len() - FRAME_HEADER_LEN) as u64 {
        return Err(FrameError::LengthMismatch);
    }
    let index: u32 = read_be32(frame, 4);
    Ok((index, copy_from(frame, FRAME_PREFIX_LEN)))
}

/// How many bytes follow a frame header.
pub fn body_len(header: &[u8; 20]) -> (res: u32)
    ensures
        res == from_be32(header@.take(4)),
{
    assert(header@.subrange(0, 4) =~= header@.take(4));
    read_be32(header.as_slice(), 0)
}

/// Puts a handshake packet behind its length. One that is too long for it is refused.
pub fn frame_handshake(packet: &[u8]) -> (res: Option<Vec<u8>>)
    ensures
        match res {
            Some(bytes) => packet@.len() <= u16::MAX && bytes@ == handshake_bytes(packet@),
            None => packet@.len() > u16::MAX,
        },
{
    if packet.len() > u16::MAX as usize {
        return None;
    }
    let mut bytes: Vec<u8> = Vec::new();
    push_be16(&mut bytes, packet.len() as u16);
    extend(&mut bytes, packet);
    assert(bytes@ =~= handshake_bytes(packet@));
    Some(bytes)
}

/// How many bytes a handshake packet has.
pub fn handshake_len(header: &[u8; 2]) -> (res: u16)
    ensures
        res == from_be16(header@),
{
    assert(header@.subrange(0, 2) =~= header@);
    read_be16(header.as_slice(), 0)
}

/// A frame starts with four bytes for how long what is encrypted is, without the nonce, and four
/// for the index, each number with its most significant byte first; the rest is the nonce and
/// what is encrypted, as they are.
pub proof fn frame_is_laid_out(index: u32, data: Seq<u8>)
    requires
        12 <= data.len() <= 12 + u32::MAX,
    ensures
        ({
            let frame = frame_bytes(index, data);
            &&& frame.len() == 8 + data.len()
            &&& frame[0] * 16777216 + frame[1] * 65536 + frame[2] * 256 + frame[3] == data.len() - 12
            &&& frame[4] * 16777216 + frame[5] * 65536 + frame[6] * 256 + frame[7] == index
            &&& frame.skip(8) == data
        }),
{
    let frame = frame_bytes(index, data);
    be32_goes_by_places((data.len() - 12) as u32);
    be32_goes_by_places(index);
    assert(frame.skip(8) =~= data);
}

/// Bytes are a frame exactly if there are twenty or more and the first four say how many there
/// are behind those. Then the next four are its index, and all behind them is what it carries.
pub proof fn frame_says_its_length(frame: Seq<u8>)
    ensures
        frame.len() < 20 ==> framed(frame) == Err::<(u32, Seq<u8>), FrameError>(FrameError::TooShort),
        frame.len() >= 20 ==> ({
            let says = frame[0] * 16777216 + frame[1] * 65536 + frame[2] * 256 + frame[3];
            let index = frame[4] * 16777216 + frame[5] * 65536 + frame[6] * 256 + frame[7];
            framed(frame) == if says == frame.len() - 20 {
                Ok::<(u32, Seq<u8>), FrameError>((index as u32, frame.skip(8)))
            } else {
                Err::<(u32, Seq<u8>), FrameError>(FrameError::LengthMismatch)
            }
        }),
{
}

/// A handshake packet is sent behind two bytes for its length, the first of which counts 256
/// times.
pub proof fn packet_stands_behind_length(packet: Seq<u8>)
    requires
        packet.len() <= 65535,
    ensures
        handshake_bytes(packet).len() == packet.len() + 2,
        handshake_bytes(packet)[0] * 256 + handshake_bytes(packet)[1] == packet.len(),
        handshake_bytes(packet).skip(2) == packet,
{
    be16_goes_by_places(packet.len() as u16);
    handshake_reads_back(packet);
}

}
