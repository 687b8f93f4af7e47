use vstd::prelude::*;

verus! {

/// Why a byte sequence cannot be a DNS message.
#[derive(Debug, Clone, Copy, PartialEq, Eq, Structural)]
pub enum Invalid {
    /// A label length octet whose top two bits are `01` or `10`.
    ReservedLabelForm,
    /// A name followed more compression pointers than allowed.
    PointerLoop,
    /// A compression pointer aimed at or past the end of the message.
    PointerOutOfRange,
    /// RDATA shorter than what its type needs, or a name overrunning it.
    RDataTruncated,
    /// A TTL with its sign bit set.
    NegativeTtl,
    /// A TYPE or QTYPE code outside the known set.
    UnsupportedType(u16),
    /// A CLASS or QCLASS code outside the known set.
    UnsupportedClass(u16),
    /// A buffer longer than the largest DNS datagram.
    Oversize,
    /// Section counts that disagree with what the message holds.
    CountMismatch,
}

/// Outcome of a decoder that did not produce a value.
#[derive(Debug, Clone, Copy, PartialEq, Eq, Structural)]
pub enum DecodeError {
    /// The input may be a strict prefix of a valid message.
    NeedMore,
    /// The input cannot be a valid message.
    Invalid(Invalid),
}

} // verus!
