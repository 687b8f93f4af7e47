//! Reading byte strings as text, one UTF-8 scalar at a time, for rendering
//! names and RDATA that need not be valid UTF-8.
use vstd::prelude::*;

verus! {

/// The length of the UTF-8 sequence that a leading octet announces; `None`
/// for a continuation octet or an octet that never starts a sequence.
pub open spec fn spec_len(byte: u8) -> Option<usize> {
    if byte <= 0x7f {
        Some(1)
    } else if byte <= 0xbf {
        None
    } else if byte <= 0xdf {
        Some(2)
    } else if byte <= 0xef {
        Some(3)
    } else if byte <= 0xf7 {
        Some(4)
    } else {
        None
    }
}

/// The first scalar value of `b` where `b` is valid UTF-8.
pub uninterp spec fn first_scalar(b: Seq<u8>) -> Option<char>;

/// The first character of `bytes`: `None` when empty; the character when the
/// leading sequence is valid UTF-8; else the leading octet as an error.
pub open spec fn spec_decode(bytes: Seq<u8>) -> Option<Result<char, u8>> {
    if bytes.len() == 0 {
        None
    } else {
        match spec_len(bytes[0]) {
            None => Some(Err(bytes[0])),
            Some(l) => if l > bytes.len() {
                Some(Err(bytes[0]))
            } else if l == 1 {
                Some(Ok(bytes[0] as char))
            } else {
                match first_scalar(bytes.take(l as int)) {
                    Some(c) => Some(Ok(c)),
                    None => Some(Err(bytes[0])),
                }
            },
        }
    }
}

/// Relies on `core::str::from_utf8`: whether the first `len` bytes are valid
/// UTF-8, and then the first character of that string.
#[verifier::external_body]
fn utf8_first(bytes: &[u8], len: usize) -> (r: Option<char>)
    requires
        len <= bytes@.len(),
    ensures
        r == first_scalar(bytes@.take(len as int)),
{
    match core::str::from_utf8(&bytes[..len]) {
        Ok(s) => s.chars().next(),
        Err(_) => None,
    }
}

/// The length of the UTF-8 sequence that starts with `byte`.
pub fn len(byte: u8) -> (r: Option<usize>)
    ensures
        r == spec_len(byte),
{
    if byte <= 0x7f {
        return Some(1);
    } else if byte & 0b1100_0000 == 0b1000_0000 {
        assert(byte <= 0xbf) by (bit_vector)
            requires
                byte > 0x7f,
                byte & 0xc0 == 0x80,
        ;
        return None;
    }
    assert(byte > 0xbf) by (bit_vector)
        requires
            byte > 0x7f,
            byte & 0xc0 != 0x80,
    ;
    if byte <= 0b1101_1111 {
        Some(2)
    } else if byte <= 0b1110_1111 {
        Some(3)
    } else if byte <= 0b1111_0111 {
        Some(4)
    } else {
        None
    }
}

/// The first character of `bytes`, or its first octet where that does not
/// start a valid UTF-8 sequence.
pub fn decode(bytes: &[u8]) -> (r: Option<Result<char, u8>>)
    ensures
        r == spec_decode(bytes@),
{
    if bytes.len() == 0 {
        return None;
    }
    let l = match len(bytes[0]) {
        None => return Some(Err(bytes[0])),
        Some(l) => l,
    };
    if l > bytes.len() {
        return Some(Err(bytes[0]));
    }
    if l == 1 {
        return Some(Ok(bytes[0] as char));
    }
    match utf8_first(bytes, l) {
        Some(c) => Some(Ok(c)),
        None => Some(Err(bytes[0])),
    }
}

} // verus!
