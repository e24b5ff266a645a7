use vstd::prelude::*;
use vstd::slice::slice_to_vec;
use crate::bytefmt::push_bytes;

verus! {

/// A frame's total length counts the four length bytes and the opcode
/// byte, so no frame is shorter than this.
pub const MIN_FRAME_LEN: u32 = 5;

/// What can go wrong while reading one frame out of a byte buffer.
#[derive(Clone, Copy, PartialEq, Eq, Structural, Debug)]
pub enum FrameError {
    /// The buffer ends before the declared total length.
    Truncated,
    /// The declared total length leaves no room for the opcode byte.
    BadLength,
    /// The buffer holds more bytes than the declared total length.
    TrailingData,
}

/// One unit of wire exchange: the opcode byte and the payload that
/// follows it. The length prefix is recomputed on encoding.
pub struct Frame {
    pub opcode: u8,
    pub payload: Vec<u8>,
}

/// The four big-endian bytes of `x`, most significant first.
pub open spec fn spec_u32_to_be_bytes(x: u32) -> Seq<u8> {
    seq![
        (x >> 24) as u8,
        ((x >> 16) & 0xff) as u8,
        ((x >> 8) & 0xff) as u8,
        (x & 0xff) as u8,
    ]
}

/// The u32 read big-endian from four bytes.
pub open spec fn spec_u32_from_be_bytes(s: Seq<u8>) -> u32
    recommends
        s.len() == 4,
{
    ((s[0] as u32) << 24) | ((s[1] as u32) << 16) | ((s[2] as u32) << 8) | (s[3] as u32)
}

pub proof fn lemma_u32_be_bytes_round_trip(x: u32)
    ensures
        spec_u32_from_be_bytes(spec_u32_to_be_bytes(x)) == x,
{
    assert((((((x >> 24) as u8) as u32) << 24) | (((((x >> 16) & 0xff) as u8) as u32) << 16)
        | (((((x >> 8) & 0xff) as u8) as u32) << 8) | (((x & 0xff) as u8) as u32)) == x)
        by (bit_vector);
}

pub fn u32_to_be_bytes(x: u32) -> (r: Vec<u8>)
    ensures
        r@ == spec_u32_to_be_bytes(x),
        r@.len() == 4,
{
    let mut r: Vec<u8> = Vec::new();
    r.push((x >> 24) as u8);
    r.push(((x >> 16) & 0xff) as u8);
    r.push(((x >> 8) & 0xff) as u8);
    r.push((x & 0xff) as u8);
    proof {
        assert(r@ =~= spec_u32_to_be_bytes(x));
    }
    r
}

pub fn u32_from_be_bytes(s: &[u8]) -> (r: u32)
    requires
        s@.len() == 4,
    ensures
        r == spec_u32_from_be_bytes(s@),
{
    ((s[0] as u32) << 24) | ((s[1] as u32) << 16) | ((s[2] as u32) << 8) | (s[3] as u32)
}

/// The wire form of a frame: big-endian total length (which counts its
/// own four bytes and the opcode), the opcode byte, then the payload.
pub open spec fn spec_encode_frame(opcode: u8, payload: Seq<u8>) -> Seq<u8>
    recommends
        payload.len() + 5 <= u32::MAX,
{
    spec_u32_to_be_bytes((payload.len() + 5) as u32) + seq![opcode] + payload
}

/// One frame read out of a buffer that must hold exactly that frame:
/// the opcode byte and the payload, or the error the buffer earns.
pub open spec fn spec_decode_frame(bytes: Seq<u8>) -> Result<(u8, Seq<u8>), FrameError> {
    if bytes.len() < 4 {
        Err(FrameError::Truncated)
    } else {
        let total = spec_u32_from_be_bytes(bytes.take(4)) as int;
        if total < 5 {
            Err(FrameError::BadLength)
        } else if bytes.len() < total {
            Err(FrameError::Truncated)
        } else if bytes.len() > total {
            Err(FrameError::TrailingData)
        } else {
            Ok((bytes[4], bytes.skip(5)))
        }
    }
}

/// Build the wire bytes for one frame.
pub fn encode_frame(opcode: u8, payload: &Vec<u8>) -> (r: Vec<u8>)
    requires
        payload@.len() + 5 <= u32::MAX,
    ensures
        r@ == spec_encode_frame(opcode, payload@),
        r@.len() == payload@.len() + 5,
{
    let total: u32 = (payload.len() + 5) as u32;
    let mut r = u32_to_be_bytes(total);
    r.push(opcode);
    push_bytes(&mut r, payload.as_slice());
    proof {
        assert(r@ =~= spec_encode_frame(opcode, payload@));
    }
    r
}

/// Read the one frame that `bytes` holds, exactly: a buffer cut short
/// of the declared total length is a truncation error, never a
/// silently shortened payload.
pub fn decode_frame(bytes: &[u8]) -> (r: Result<Frame, FrameError>)
    ensures
        match r {
            Ok(f) => spec_decode_frame(bytes@) == Ok::<(u8, Seq<u8>), FrameError>(
                (f.opcode, f.payload@),
            ),
            Err(e) => spec_decode_frame(bytes@) == Err::<(u8, Seq<u8>), FrameError>(e),
        },
{
    if bytes.len() < 4 {
        return Err(FrameError::Truncated);
    }
    let head = &bytes[0..4];
    proof {
        assert(head@ =~= bytes@.take(4));
    }
    let total = u32_from_be_bytes(head);
    if total < MIN_FRAME_LEN {
        return Err(FrameError::BadLength);
    }
    let total_us = total as usize;
    if bytes.len() < total_us {
        return Err(FrameError::Truncated);
    }
    if bytes.len() > total_us {
        return Err(FrameError::TrailingData);
    }
    let opcode = bytes[4];
    let payload = slice_to_vec(&bytes[5..bytes.len()]);
    proof {
        assert(payload@ =~= bytes@.skip(5));
    }
    Ok(Frame { opcode, payload })
}

/// Framing round trip: decoding what `spec_encode_frame` built gives
/// back exactly the opcode and the payload, for every pair that fits
/// in a frame.
pub proof fn lemma_frame_round_trip(opcode: u8, payload: Seq<u8>)
    requires
        payload.len() + 5 <= u32::MAX,
    ensures
        spec_decode_frame(spec_encode_frame(opcode, payload)) == Ok::<(u8, Seq<u8>), FrameError>(
            (opcode, payload),
        ),
{
    let enc = spec_encode_frame(opcode, payload);
    let total = (payload.len() + 5) as u32;
    assert(enc.take(4) =~= spec_u32_to_be_bytes(total));
    lemma_u32_be_bytes_round_trip(total);
    assert(enc[4] == opcode);
    assert(enc.skip(5) =~= payload);
}

/// Truncation: a buffer holding only the first `k` bytes of a frame,
/// for any `k` short of the whole, decodes to a truncation error.
pub proof fn lemma_frame_truncation(opcode: u8, payload: Seq<u8>, k: int)
    requires
        payload.len() + 5 <= u32::MAX,
        0 <= k < payload.len() + 5,
    ensures
        spec_decode_frame(spec_encode_frame(opcode, payload).take(k)) == Err::<
            (u8, Seq<u8>),
            FrameError,
        >(FrameError::Truncated),
{
    let enc = spec_encode_frame(opcode, payload);
    let cut = enc.take(k);
    if k < 4 {
        assert(cut.len() < 4);
    } else {
        let total = (payload.len() + 5) as u32;
        assert(cut.take(4) =~= spec_u32_to_be_bytes(total));
        lemma_u32_be_bytes_round_trip(total);
        assert(cut.len() < total);
    }
}

} // verus!
