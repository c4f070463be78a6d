//! The framing of the two channels to the host.
//!
//! On the read channel the client writes the 32 bytes of a key; the host
//! answers with the length of the value in eight bytes, the highest first,
//! and then the value. On the hint channel the client writes the length of
//! the hint in four bytes, the highest first, and then the hint; the host
//! answers with one byte.

use crate::boot::be_u64;
use crate::key::PreimageKey;
use vstd::prelude::*;
use vstd::string::StringSliceAdditionalSpecFns;

verus! {

/// The four bytes of `n`, the highest first.
pub open spec fn be_bytes_u32(n: u32) -> Seq<u8> {
    seq![
        (n as int / 0x100_0000) as u8,
        ((n as int / 0x1_0000) % 0x100) as u8,
        ((n as int / 0x100) % 0x100) as u8,
        (n as int % 0x100) as u8,
    ]
}

/// What the client writes for a hint of the bytes `hint`: the length, then
/// the hint.
pub open spec fn hint_frame(hint: Seq<u8>) -> Seq<u8> {
    be_bytes_u32(hint.len() as u32) + hint
}

/// A hint is too long for its length to be written in four bytes.
#[derive(Debug, Clone, Copy, PartialEq, Eq, Structural)]
pub struct HintTooLong(pub usize);

/// What the client writes to the hint channel for `hint`.
pub fn frame_hint(hint: &str) -> (r: Result<Vec<u8>, HintTooLong>)
    ensures
        match r {
            Ok(frame) => hint.spec_bytes().len() <= u32::MAX && frame@ == hint_frame(
                hint.spec_bytes(),
            ),
            Err(e) => hint.spec_bytes().len() > u32::MAX && e.0 == hint.spec_bytes().len(),
        },
{
    let bytes = hint.as_bytes();
    let len = bytes.len();
    if len > 0xffff_ffff {
        return Err(HintTooLong(len));
    }
    let mut frame: Vec<u8> = Vec::new();
    frame.push((len / 0x100_0000) as u8);
    frame.push(((len / 0x1_0000) % 0x100) as u8);
    frame.push(((len / 0x100) % 0x100) as u8);
    frame.push((len % 0x100) as u8);
    let ghost head = frame@;
    frame.extend_from_slice(bytes);
    proof {
        assert(head =~= be_bytes_u32(len as u32));
        assert(frame@ =~= head + bytes@);
    }
    Ok(frame)
}

/// What the client writes to the read channel for `key`: the 32 bytes of the
/// key.
pub fn frame_request(key: &PreimageKey) -> (frame: [u8; 32])
    ensures
        frame@ == key.encoding(),
{
    key.to_bytes()
}

/// The length of the value that the host announces with `head`.
pub fn announced_length(head: &[u8; 8]) -> (len: u64)
    ensures
        len == be_u64(head@),
{
    (head[0] as u64) * 0x100_0000_0000_0000 + (head[1] as u64) * 0x1_0000_0000_0000 + (
    head[2] as u64) * 0x100_0000_0000 + (head[3] as u64) * 0x1_0000_0000 + (head[4] as u64)
        * 0x100_0000 + (head[5] as u64) * 0x1_0000 + (head[6] as u64) * 0x100 + (head[7] as u64)
}

} // verus!
