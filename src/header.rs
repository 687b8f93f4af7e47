//! The fixed 12-octet message header.
use vstd::prelude::*;

use crate::error::DecodeError;
use crate::wire::{be16, decoded_as, read_u16, u16_octets, write_u16};

verus! {

/// The 16-bit flag word: QR(1) OPCODE(4) AA(1) TC(1) RD(1) RA(1) Z(3) RCODE(4),
/// most significant bit first.
#[derive(Debug, Clone, Copy, PartialEq, Eq, Structural)]
pub struct Flags(pub u16);

#[derive(Debug, Clone, Copy, PartialEq, Eq, Structural)]
pub struct Header {
    /// Identifier chosen by the requester and copied into the reply.
    pub id: u16,
    pub flags: Flags,
    /// Number of entries in the question section.
    pub qdcount: u16,
    /// Number of resource records in the answer section.
    pub ancount: u16,
    /// Number of name server records in the authority section.
    pub ncount: u16,
    /// Number of resource records in the additional section.
    pub arcount: u16,
}

impl View for Header {
    type V = Header;

    open spec fn view(&self) -> Header {
        *self
    }
}

/// Size of a header on the wire.
pub const HEADER_LEN: usize = 12;

/// The header's twelve octets on the wire.
pub open spec fn header_octets(h: Header) -> Seq<u8> {
    u16_octets(h.id) + u16_octets(h.flags.0) + u16_octets(h.qdcount) + u16_octets(h.ancount)
        + u16_octets(h.ncount) + u16_octets(h.arcount)
}

/// The header at `pos`: six big-endian words, or `NeedMore` where fewer than
/// twelve octets remain.
pub open spec fn spec_header(msg: Seq<u8>, pos: int) -> Result<(Header, int), DecodeError> {
    if pos + 12 > msg.len() {
        Err(DecodeError::NeedMore)
    } else {
        let w = |i: int| be16(msg[pos + 2 * i], msg[pos + 2 * i + 1]);
        Ok(
            (
                Header {
                    id: w(0),
                    flags: Flags(w(1)),
                    qdcount: w(2),
                    ancount: w(3),
                    ncount: w(4),
                    arcount: w(5),
                },
                pos + 12,
            ),
        )
    }
}

impl Header {
    /// Reads the twelve header octets at `pos`.
    pub fn decode(msg: &[u8], pos: usize) -> (r: Result<(Header, usize), DecodeError>)
        requires
            pos <= msg@.len(),
        ensures
            decoded_as(r, spec_header(msg@, pos as int)),
    {
        if msg.len() - pos < HEADER_LEN {
            return Err(DecodeError::NeedMore);
        }
        let (id, p) = match read_u16(msg, pos) {
            Ok(v) => v,
            Err(e) => return Err(e),
        };
        let (flags, p) = match read_u16(msg, p) {
            Ok(v) => v,
            Err(e) => return Err(e),
        };
        let (qdcount, p) = match read_u16(msg, p) {
            Ok(v) => v,
            Err(e) => return Err(e),
        };
        let (ancount, p) = match read_u16(msg, p) {
            Ok(v) => v,
            Err(e) => return Err(e),
        };
        let (ncount, p) = match read_u16(msg, p) {
            Ok(v) => v,
            Err(e) => return Err(e),
        };
        let (arcount, p) = match read_u16(msg, p) {
            Ok(v) => v,
            Err(e) => return Err(e),
        };
        Ok((Header { id, flags: Flags(flags), qdcount, ancount, ncount, arcount }, p))
    }

    /// Appends the header's twelve octets.
    pub fn encode(self, dst: &mut Vec<u8>)
        ensures
            final(dst)@ == old(dst)@ + header_octets(self),
    {
        write_u16(dst, self.id);
        write_u16(dst, self.flags.0);
        write_u16(dst, self.qdcount);
        write_u16(dst, self.ancount);
        write_u16(dst, self.ncount);
        write_u16(dst, self.arcount);
        assert(dst@ =~= old(dst)@ + header_octets(self));
    }
}

/// Decoding an encoded header gives it back, and the encoding is exactly
/// twelve octets long.
pub proof fn lemma_header_round_trip(h: Header, rest: Seq<u8>)
    ensures
        header_octets(h).len() == 12,
        spec_header(header_octets(h) + rest, 0) == Ok::<(Header, int), DecodeError>((h, 12)),
{
    let b = header_octets(h) + rest;
    assert(b[0] == u16_octets(h.id)[0] && b[1] == u16_octets(h.id)[1]);
    assert(b[2] == u16_octets(h.flags.0)[0] && b[3] == u16_octets(h.flags.0)[1]);
    assert(b[4] == u16_octets(h.qdcount)[0] && b[5] == u16_octets(h.qdcount)[1]);
    assert(b[6] == u16_octets(h.ancount)[0] && b[7] == u16_octets(h.ancount)[1]);
    assert(b[8] == u16_octets(h.ncount)[0] && b[9] == u16_octets(h.ncount)[1]);
    assert(b[10] == u16_octets(h.arcount)[0] && b[11] == u16_octets(h.arcount)[1]);
}

} // verus!
