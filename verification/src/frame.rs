//! The frame codec: a frame is the length of its payload as four bytes,
//! lowest first, followed by the payload.

use vstd::prelude::*;

verus! {

/// Why a payload could not be framed.
#[derive(Debug, Clone, Copy, PartialEq, Eq, Structural)]
pub enum FrameError {
    /// The length of the payload does not fit in the four bytes of the
    /// length prefix.
    LengthOverflow,
    /// The payload of an action is longer than `MAX_ACTION_LENGTH` bytes.
    MessageTooLarge,
}

/// The longest payload that an action may have, in bytes.
pub const MAX_ACTION_LENGTH: usize = 1_048_576;

/// The four bytes that stand for the length `n`, lowest first.
pub open spec fn length_prefix(n: nat) -> Seq<u8> {
    seq![
        (n % 256) as u8,
        (n / 256 % 256) as u8,
        (n / 65536 % 256) as u8,
        (n / 16777216 % 256) as u8,
    ]
}

/// The length that the first four bytes of `header` stand for.
pub open spec fn prefix_length(header: Seq<u8>) -> nat {
    (header[0] as nat) + 256 * (header[1] as nat) + 65536 * (header[2] as nat) + 16777216 * (
    header[3] as nat)
}

/// The frame of a payload.
pub open spec fn framed(payload: Seq<u8>) -> Seq<u8> {
    length_prefix(payload.len()) + payload
}

/// The length prefix gives back the length it was written for, as long as
/// that length fits in 32 bits.
pub proof fn lemma_prefix_round_trip(n: nat)
    requires
        n <= u32::MAX,
    ensures
        prefix_length(length_prefix(n)) == n,
{
    let m = n as u32;
    assert((m % 256) + 256 * (m / 256 % 256) + 65536 * (m / 65536 % 256) + 16777216 * (m / 16777216
        % 256) == m) by (bit_vector);
}

/// Four bytes are the length prefix of the length they stand for, and that
/// length fits in 32 bits.
pub proof fn lemma_header_round_trip(header: Seq<u8>)
    requires
        header.len() == 4,
    ensures
        prefix_length(header) <= u32::MAX,
        length_prefix(prefix_length(header)) == header,
{
    let a = header[0];
    let b = header[1];
    let c = header[2];
    let d = header[3];
    let n: u32 = (a as u32 + 256 * (b as u32) + 65536 * (c as u32) + 16777216 * (d as u32)) as u32;
    assert(n == prefix_length(header));
    assert(n % 256 == a && n / 256 % 256 == b && n / 65536 % 256 == c && n / 16777216 % 256 == d)
        by (bit_vector)
        requires
            n == (a as u32 + 256 * (b as u32) + 65536 * (c as u32) + 16777216 * (d as u32)) as u32,
    ;
    assert(length_prefix(prefix_length(header)) =~= header);
}

/// A frame starts with the length of the payload that follows it.
pub proof fn lemma_frame_parts(payload: Seq<u8>)
    requires
        payload.len() <= u32::MAX,
    ensures
        framed(payload).len() == 4 + payload.len(),
        prefix_length(framed(payload).take(4)) == payload.len(),
        framed(payload).skip(4) == payload,
{
    lemma_prefix_round_trip(payload.len());
    assert(framed(payload).take(4) =~= length_prefix(payload.len()));
    assert(framed(payload).skip(4) =~= payload);
}

/// The length of the payload that follows the header of a frame.
pub fn frame_length(header: &[u8; 4]) -> (n: u32)
    ensures
        n == prefix_length(header@),
{
    (header[0] as u32) + 256 * (header[1] as u32) + 65536 * (header[2] as u32) + 16777216 * (
    header[3] as u32)
}

/// The header of a frame whose payload has `n` bytes.
pub fn frame_header(n: u32) -> (header: [u8; 4])
    ensures
        header@ == length_prefix(n as nat),
{
    let header: [u8; 4] = [
        (n % 256) as u8,
        (n / 256 % 256) as u8,
        (n / 65536 % 256) as u8,
        (n / 16777216 % 256) as u8,
    ];
    assert(header@ =~= length_prefix(n as nat));
    header
}

/// Frames a payload. Fails with `LengthOverflow` if the payload has more
/// bytes than 32 bits can count.
pub fn encode_frame(payload: &[u8]) -> (result: Result<Vec<u8>, FrameError>)
    ensures
        match result {
            Ok(frame) => payload@.len() <= u32::MAX && frame@ == framed(payload@),
            Err(e) => payload@.len() > u32::MAX && e == FrameError::LengthOverflow,
        },
{
    if payload.len() > 0xffff_ffff {
        return Err(FrameError::LengthOverflow);
    }
    let header = frame_header(payload.len() as u32);
    let mut frame: Vec<u8> = Vec::new();
    frame.push(header[0]);
    frame.push(header[1]);
    frame.push(header[2]);
    frame.push(header[3]);
    let mut i: usize = 0;
    while i < payload.len()
        invariant
            i <= payload.len(),
            frame@ == length_prefix(payload@.len()) + payload@.take(i as int),
        decreases payload.len() - i,
    {
        frame.push(payload[i]);
        assert(frame@ =~= length_prefix(payload@.len()) + payload@.take(i + 1));
        i = i + 1;
    }
    assert(payload@.take(i as int) =~= payload@);
    Ok(frame)
}

/// Frames the payload of an action. Fails with `MessageTooLarge` if the
/// payload has more than `MAX_ACTION_LENGTH` bytes.
pub fn encode_action_frame(payload: &[u8]) -> (result: Result<Vec<u8>, FrameError>)
    ensures
        match result {
            Ok(frame) => payload@.len() <= MAX_ACTION_LENGTH && frame@ == framed(payload@),
            Err(e) => payload@.len() > MAX_ACTION_LENGTH && e == FrameError::MessageTooLarge,
        },
{
    if payload.len() > MAX_ACTION_LENGTH {
        return Err(FrameError::MessageTooLarge);
    }
    encode_frame(payload)
}

} // verus!
