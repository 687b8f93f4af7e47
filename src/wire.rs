//! Big-endian integers and the shape of decoder results.
use vstd::prelude::*;

use crate::error::DecodeError;

verus! {

/// The largest DNS message carried in one UDP datagram.
pub const MAX_MESSAGE_LEN: usize = 65535;

/// The 16-bit value of two octets in network order.
pub open spec fn be16(hi: u8, lo: u8) -> u16 {
    (hi as int * 256 + lo as int) as u16
}

/// The 32-bit value of four octets in network order.
pub open spec fn be32(b0: u8, b1: u8, b2: u8, b3: u8) -> u32 {
    (((b0 as int * 256 + b1 as int) * 256 + b2 as int) * 256 + b3 as int) as u32
}

/// The two octets of `v` in network order.
pub open spec fn u16_octets(v: u16) -> Seq<u8> {
    seq![(v / 256) as u8, (v % 256) as u8]
}

/// A decoder's result in the model: the value and the position just past it.
pub open spec fn decoded_as<T: View>(
    r: Result<(T, usize), DecodeError>,
    s: Result<(T::V, int), DecodeError>,
) -> bool {
    match r {
        Ok((v, end)) => s == Ok::<(T::V, int), DecodeError>((v@, end as int)),
        Err(e) => s == Err::<(T::V, int), DecodeError>(e),
    }
}

/// The 16-bit big-endian value at `pos`, or `NeedMore` where fewer than two
/// octets remain.
pub open spec fn spec_read_u16(msg: Seq<u8>, pos: int) -> Result<(u16, int), DecodeError> {
    if pos + 2 > msg.len() {
        Err(DecodeError::NeedMore)
    } else {
        Ok((be16(msg[pos], msg[pos + 1]), pos + 2))
    }
}

/// The 32-bit big-endian value at `pos`, or `NeedMore` where fewer than four
/// octets remain.
pub open spec fn spec_read_u32(msg: Seq<u8>, pos: int) -> Result<(u32, int), DecodeError> {
    if pos + 4 > msg.len() {
        Err(DecodeError::NeedMore)
    } else {
        Ok((be32(msg[pos], msg[pos + 1], msg[pos + 2], msg[pos + 3]), pos + 4))
    }
}

/// Reads the 16-bit big-endian value at `pos`.
pub fn read_u16(msg: &[u8], pos: usize) -> (r: Result<(u16, usize), DecodeError>)
    requires
        pos <= msg@.len(),
    ensures
        decoded_as(r, spec_read_u16(msg@, pos as int)),
{
    if msg.len() - pos < 2 {
        Err(DecodeError::NeedMore)
    } else {
        let v: u16 = (msg[pos] as u16) * 256 + (msg[pos + 1] as u16);
        Ok((v, pos + 2))
    }
}

/// Reads the 32-bit big-endian value at `pos`.
pub fn read_u32(msg: &[u8], pos: usize) -> (r: Result<(u32, usize), DecodeError>)
    requires
        pos <= msg@.len(),
    ensures
        decoded_as(r, spec_read_u32(msg@, pos as int)),
{
    if msg.len() - pos < 4 {
        Err(DecodeError::NeedMore)
    } else {
        let v: u32 = (((msg[pos] as u32) * 256 + (msg[pos + 1] as u32)) * 256 + (
        msg[pos + 2] as u32)) * 256 + (msg[pos + 3] as u32);
        Ok((v, pos + 4))
    }
}

/// Appends the two octets of `v` in network order.
pub fn write_u16(dst: &mut Vec<u8>, v: u16)
    ensures
        final(dst)@ == old(dst)@ + u16_octets(v),
{
    dst.push((v / 256) as u8);
    dst.push((v % 256) as u8);
    assert(dst@ =~= old(dst)@ + u16_octets(v));
}

} // verus!
