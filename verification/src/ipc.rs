//! Framing of the cross-process bridge: each envelope travels as a 4-byte
//! little-endian length followed by that many bytes of JSON. The sockets
//! and the JSON itself are the caller's.

use vstd::prelude::*;

verus! {

#[verifier::external_type_specification]
#[verifier::external_body]
pub struct ExJsonError(serde_json::Error);

/// Largest frame body accepted or sent: 16 MiB.
pub const MAX_FRAME_BYTES: u32 = 16777216;

/// Why a frame could not be sent or received.
#[derive(Debug)]
pub enum IpcError {
    /// The socket failed.
    Io(std::io::Error),
    /// The body was not an envelope.
    Json(serde_json::Error),
    /// A body longer than [`MAX_FRAME_BYTES`]; its length.
    FrameTooLarge(u32),
    /// The socket name was refused.
    InvalidName(String),
    /// The server was shut down already.
    AlreadyShutDown,
}

/// The four little-endian bytes of `n`.
pub open spec fn le_bytes(n: u32) -> Seq<u8> {
    seq![
        (n % 256) as u8,
        ((n / 256) % 256) as u8,
        ((n / 65536) % 256) as u8,
        (n / 16777216) as u8,
    ]
}

/// The number whose little-endian bytes are `b`.
pub open spec fn le_value(b: Seq<u8>) -> int {
    b[0] + 256 * b[1] + 65536 * b[2] + 16777216 * b[3]
}

/// A frame: the body's length in four little-endian bytes, then the body.
/// Bodies over [`MAX_FRAME_BYTES`] are refused with their length (as `u32`).
pub fn encode_frame(body: &[u8]) -> (r: Result<Vec<u8>, IpcError>)
    ensures
        body.len() > MAX_FRAME_BYTES ==> (r matches Err(IpcError::FrameTooLarge(n)) && n == body.len() as u32),
        body.len() <= MAX_FRAME_BYTES ==> (r matches Ok(f) && f@ == le_bytes(body.len() as u32) + body@),
{
    if body.len() > MAX_FRAME_BYTES as usize {
        return Err(IpcError::FrameTooLarge(body.len() as u32));
    }
    let len = body.len() as u32;
    let mut f: Vec<u8> = Vec::new();
    f.push((len % 256) as u8);
    f.push(((len / 256) % 256) as u8);
    f.push(((len / 65536) % 256) as u8);
    f.push((len / 16777216) as u8);
    let mut i: usize = 0;
    while i < body.len()
        invariant
            i <= body.len() <= MAX_FRAME_BYTES,
            len == body.len() as u32,
            f@ == le_bytes(len) + body@.subrange(0, i as int),
        decreases body.len() - i,
    {
        f.push(body[i]);
        i += 1;
        assert(f@ =~= le_bytes(len) + body@.subrange(0, i as int));
    }
    assert(body@.subrange(0, body.len() as int) =~= body@);
    Ok(f)
}

/// The body length announced by a frame's four-byte prefix; lengths over
/// [`MAX_FRAME_BYTES`] are refused.
pub fn frame_body_len(prefix: [u8; 4]) -> (r: Result<u32, IpcError>)
    ensures
        le_value(prefix@) > MAX_FRAME_BYTES ==> (r matches Err(IpcError::FrameTooLarge(n)) && n == le_value(prefix@)),
        le_value(prefix@) <= MAX_FRAME_BYTES ==> (r matches Ok(n) && n == le_value(prefix@)),
{
    let b0 = prefix[0] as u32;
    let b1 = prefix[1] as u32;
    let b2 = prefix[2] as u32;
    let b3 = prefix[3] as u32;
    assert(b0 + 256 * b1 + 65536 * b2 + 16777216 * b3 <= 0xffff_ffff) by (nonlinear_arith)
        requires
            b0 < 256,
            b1 < 256,
            b2 < 256,
            b3 < 256,
    ;
    let len: u32 = b0 + 256 * b1 + 65536 * b2 + 16777216 * b3;
    if len > MAX_FRAME_BYTES {
        Err(IpcError::FrameTooLarge(len))
    } else {
        Ok(len)
    }
}

/// The length that a frame announces is the length it was written with.
pub proof fn lemma_frame_length_round_trip(n: u32)
    ensures
        le_value(le_bytes(n)) == n,
{
    let b0 = n % 256;
    let b1 = (n / 256) % 256;
    let b2 = (n / 65536) % 256;
    let b3 = n / 16777216;
    assert(n == b0 + 256 * b1 + 65536 * b2 + 16777216 * b3) by (bit_vector)
        requires
            b0 == n % 256,
            b1 == (n / 256) % 256,
            b2 == (n / 65536) % 256,
            b3 == n / 16777216,
    ;
    assert(le_bytes(n)[0] == b0);
    assert(le_bytes(n)[1] == b1);
    assert(le_bytes(n)[2] == b2);
    assert(le_bytes(n)[3] == b3);
}

/// What a receiver reads of a frame that a sender wrote: the announced
/// length is accepted, and the body is what follows the prefix.
pub proof fn lemma_frame_round_trip(body: Seq<u8>)
    requires
        body.len() <= MAX_FRAME_BYTES,
    ensures
        ({
            let f = le_bytes(body.len() as u32) + body;
            &&& le_value(f.subrange(0, 4)) == body.len()
            &&& f.subrange(4, f.len() as int) == body
        }),
{
    let f = le_bytes(body.len() as u32) + body;
    lemma_frame_length_round_trip(body.len() as u32);
    assert(f.subrange(0, 4) =~= le_bytes(body.len() as u32));
    assert(f.subrange(4, f.len() as int) =~= body);
}

} // verus!
