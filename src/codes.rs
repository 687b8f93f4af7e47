//! The fixed-width codes of questions and records: TYPE, QTYPE, CLASS,
//! QCLASS, and the TTL.
use vstd::prelude::*;

use crate::error::{DecodeError, Invalid};
use crate::wire::{decoded_as, read_u16, read_u32, spec_read_u16, spec_read_u32, u16_octets, write_u16};

verus! {

/// The TYPE of a resource record.
#[derive(Debug, Clone, Copy, PartialEq, Eq, Structural)]
pub enum Type {
    /// A host address
    A,
    /// An authoritative name server
    NS,
    /// A mail destination (Obsolete - use MX)
    MD,
    /// A mail forwarder (Obsolete - use MX)
    MF,
    /// The canonical name for an alias
    CNAME,
    /// Marks the start of a zone of authority
    SOA,
    /// A mailbox domain name (EXPERIMENTAL)
    MB,
    /// A mail group member (EXPERIMENTAL)
    MG,
    /// A mail rename domain name (EXPERIMENTAL)
    MR,
    /// A null RR (EXPERIMENTAL)
    NULL,
    /// A well known service description
    WKS,
    /// A domain name pointer
    PTR,
    /// Host information
    HINFO,
    /// Mailbox or mail list information
    MINFO,
    /// Mail exchange
    MX,
    /// Text strings
    TXT,
    /// Responsible Person
    RP,
    /// Location of database servers of an AFS cell.
    AFSDB,
    SIG,
    KEY,
    AAAA,
    LOC,
    SRV,
    NAPTR,
    KX,
    CERT,
    DNAME,
    APL,
    DS,
    SSHFP,
    IPSECKEY,
    RRSIG,
    NSEC,
    DNSKEY,
    DHCID,
    NSEC3,
    NSEC3PARAM,
    TSLA,
    SMIMEA,
    HIP,
    CDS,
    CDNSKEY,
    OPENPGPKEY,
    CSYNC,
    ZONEMD,
    SVCB,
    HTTOS,
    EUI48,
    EUI64,
    TKEY,
    TSIG,
    URI,
    CAA,
    WALLET,
    TA,
    DLV,
}

impl View for Type {
    type V = Type;

    open spec fn view(&self) -> Type {
        *self
    }
}

/// The Type with code `v`, if any.
pub open spec fn type_from_code(v: u16) -> Option<Type> {
    match v {
        1 => Some(Type::A),
        2 => Some(Type::NS),
        3 => Some(Type::MD),
        4 => Some(Type::MF),
        5 => Some(Type::CNAME),
        6 => Some(Type::SOA),
        7 => Some(Type::MB),
        8 => Some(Type::MG),
        9 => Some(Type::MR),
        10 => Some(Type::NULL),
        11 => Some(Type::WKS),
        12 => Some(Type::PTR),
        13 => Some(Type::HINFO),
        14 => Some(Type::MINFO),
        15 => Some(Type::MX),
        16 => Some(Type::TXT),
        17 => Some(Type::RP),
        18 => Some(Type::AFSDB),
        24 => Some(Type::SIG),
        25 => Some(Type::KEY),
        28 => Some(Type::AAAA),
        29 => Some(Type::LOC),
        33 => Some(Type::SRV),
        35 => Some(Type::NAPTR),
        36 => Some(Type::KX),
        37 => Some(Type::CERT),
        39 => Some(Type::DNAME),
        42 => Some(Type::APL),
        43 => Some(Type::DS),
        44 => Some(Type::SSHFP),
        45 => Some(Type::IPSECKEY),
        46 => Some(Type::RRSIG),
        47 => Some(Type::NSEC),
        48 => Some(Type::DNSKEY),
        49 => Some(Type::DHCID),
        50 => Some(Type::NSEC3),
        51 => Some(Type::NSEC3PARAM),
        52 => Some(Type::TSLA),
        53 => Some(Type::SMIMEA),
        55 => Some(Type::HIP),
        59 => Some(Type::CDS),
        60 => Some(Type::CDNSKEY),
        61 => Some(Type::OPENPGPKEY),
        62 => Some(Type::CSYNC),
        63 => Some(Type::ZONEMD),
        64 => Some(Type::SVCB),
        65 => Some(Type::HTTOS),
        108 => Some(Type::EUI48),
        109 => Some(Type::EUI64),
        249 => Some(Type::TKEY),
        250 => Some(Type::TSIG),
        256 => Some(Type::URI),
        257 => Some(Type::CAA),
        262 => Some(Type::WALLET),
        32768 => Some(Type::TA),
        32769 => Some(Type::DLV),
        _ => None,
    }
}

/// The Type at `pos`: a 16-bit code, which must be known.
pub open spec fn spec_type(msg: Seq<u8>, pos: int) -> Result<(Type, int), DecodeError> {
    match spec_read_u16(msg, pos) {
        Ok((v, end)) => match type_from_code(v) {
            Some(t) => Ok((t, end)),
            None => Err(DecodeError::Invalid(Invalid::UnsupportedType(v))),
        },
        Err(e) => Err(e),
    }
}

impl Type {
    /// The numeric code on the wire.
    pub open spec fn spec_code(self) -> u16 {
        match self {
            Type::A => 1,
            Type::NS => 2,
            Type::MD => 3,
            Type::MF => 4,
            Type::CNAME => 5,
            Type::SOA => 6,
            Type::MB => 7,
            Type::MG => 8,
            Type::MR => 9,
            Type::NULL => 10,
            Type::WKS => 11,
            Type::PTR => 12,
            Type::HINFO => 13,
            Type::MINFO => 14,
            Type::MX => 15,
            Type::TXT => 16,
            Type::RP => 17,
            Type::AFSDB => 18,
            Type::SIG => 24,
            Type::KEY => 25,
            Type::AAAA => 28,
            Type::LOC => 29,
            Type::SRV => 33,
            Type::NAPTR => 35,
            Type::KX => 36,
            Type::CERT => 37,
            Type::DNAME => 39,
            Type::APL => 42,
            Type::DS => 43,
            Type::SSHFP => 44,
            Type::IPSECKEY => 45,
            Type::RRSIG => 46,
            Type::NSEC => 47,
            Type::DNSKEY => 48,
            Type::DHCID => 49,
            Type::NSEC3 => 50,
            Type::NSEC3PARAM => 51,
            Type::TSLA => 52,
            Type::SMIMEA => 53,
            Type::HIP => 55,
            Type::CDS => 59,
            Type::CDNSKEY => 60,
            Type::OPENPGPKEY => 61,
            Type::CSYNC => 62,
            Type::ZONEMD => 63,
            Type::SVCB => 64,
            Type::HTTOS => 65,
            Type::EUI48 => 108,
            Type::EUI64 => 109,
            Type::TKEY => 249,
            Type::TSIG => 250,
            Type::URI => 256,
            Type::CAA => 257,
            Type::WALLET => 262,
            Type::TA => 32768,
            Type::DLV => 32769,
        }
    }

    #[verifier::when_used_as_spec(spec_code)]
    pub fn code(self) -> (r: u16)
        ensures
            r == self.spec_code(),
    {
        match self {
            Type::A => 1,
            Type::NS => 2,
            Type::MD => 3,
            Type::MF => 4,
            Type::CNAME => 5,
            Type::SOA => 6,
            Type::MB => 7,
            Type::MG => 8,
            Type::MR => 9,
            Type::NULL => 10,
            Type::WKS => 11,
            Type::PTR => 12,
            Type::HINFO => 13,
            Type::MINFO => 14,
            Type::MX => 15,
            Type::TXT => 16,
            Type::RP => 17,
            Type::AFSDB => 18,
            Type::SIG => 24,
            Type::KEY => 25,
            Type::AAAA => 28,
            Type::LOC => 29,
            Type::SRV => 33,
            Type::NAPTR => 35,
            Type::KX => 36,
            Type::CERT => 37,
            Type::DNAME => 39,
            Type::APL => 42,
            Type::DS => 43,
            Type::SSHFP => 44,
            Type::IPSECKEY => 45,
            Type::RRSIG => 46,
            Type::NSEC => 47,
            Type::DNSKEY => 48,
            Type::DHCID => 49,
            Type::NSEC3 => 50,
            Type::NSEC3PARAM => 51,
            Type::TSLA => 52,
            Type::SMIMEA => 53,
            Type::HIP => 55,
            Type::CDS => 59,
            Type::CDNSKEY => 60,
            Type::OPENPGPKEY => 61,
            Type::CSYNC => 62,
            Type::ZONEMD => 63,
            Type::SVCB => 64,
            Type::HTTOS => 65,
            Type::EUI48 => 108,
            Type::EUI64 => 109,
            Type::TKEY => 249,
            Type::TSIG => 250,
            Type::URI => 256,
            Type::CAA => 257,
            Type::WALLET => 262,
            Type::TA => 32768,
            Type::DLV => 32769,
        }
    }

    /// The value with code `v`, if the code is known.
    pub fn from_code(v: u16) -> (r: Option<Type>)
        ensures
            r == type_from_code(v),
    {
        match v {
            1 => Some(Type::A),
            2 => Some(Type::NS),
            3 => Some(Type::MD),
            4 => Some(Type::MF),
            5 => Some(Type::CNAME),
            6 => Some(Type::SOA),
            7 => Some(Type::MB),
            8 => Some(Type::MG),
            9 => Some(Type::MR),
            10 => Some(Type::NULL),
            11 => Some(Type::WKS),
            12 => Some(Type::PTR),
            13 => Some(Type::HINFO),
            14 => Some(Type::MINFO),
            15 => Some(Type::MX),
            16 => Some(Type::TXT),
            17 => Some(Type::RP),
            18 => Some(Type::AFSDB),
            24 => Some(Type::SIG),
            25 => Some(Type::KEY),
            28 => Some(Type::AAAA),
            29 => Some(Type::LOC),
            33 => Some(Type::SRV),
            35 => Some(Type::NAPTR),
            36 => Some(Type::KX),
            37 => Some(Type::CERT),
            39 => Some(Type::DNAME),
            42 => Some(Type::APL),
            43 => Some(Type::DS),
            44 => Some(Type::SSHFP),
            45 => Some(Type::IPSECKEY),
            46 => Some(Type::RRSIG),
            47 => Some(Type::NSEC),
            48 => Some(Type::DNSKEY),
            49 => Some(Type::DHCID),
            50 => Some(Type::NSEC3),
            51 => Some(Type::NSEC3PARAM),
            52 => Some(Type::TSLA),
            53 => Some(Type::SMIMEA),
            55 => Some(Type::HIP),
            59 => Some(Type::CDS),
            60 => Some(Type::CDNSKEY),
            61 => Some(Type::OPENPGPKEY),
            62 => Some(Type::CSYNC),
            63 => Some(Type::ZONEMD),
            64 => Some(Type::SVCB),
            65 => Some(Type::HTTOS),
            108 => Some(Type::EUI48),
            109 => Some(Type::EUI64),
            249 => Some(Type::TKEY),
            250 => Some(Type::TSIG),
            256 => Some(Type::URI),
            257 => Some(Type::CAA),
            262 => Some(Type::WALLET),
            32768 => Some(Type::TA),
            32769 => Some(Type::DLV),
            _ => None,
        }
    }

    /// Reads the 16-bit code at `pos`; an unknown code is invalid.
    pub fn decode(msg: &[u8], pos: usize) -> (r: Result<(Type, usize), DecodeError>)
        requires
            pos <= msg@.len(),
        ensures
            decoded_as(r, spec_type(msg@, pos as int)),
    {
        match read_u16(msg, pos) {
            Ok((v, end)) => match Type::from_code(v) {
                Some(t) => Ok((t, end)),
                None => Err(DecodeError::Invalid(Invalid::UnsupportedType(v))),
            },
            Err(e) => Err(e),
        }
    }

    /// Appends the code in network order.
    pub fn encode(self, dst: &mut Vec<u8>)
        ensures
            final(dst)@ == old(dst)@ + u16_octets(self.code()),
    {
        write_u16(dst, self.code());
    }
}

/// Each Type is found again from its code.
pub proof fn lemma_type_code_round_trip(t: Type)
    ensures
        type_from_code(t.code()) == Some(t),
{
    match t {
        Type::A => {},
        Type::NS => {},
        Type::MD => {},
        Type::MF => {},
        Type::CNAME => {},
        Type::SOA => {},
        Type::MB => {},
        Type::MG => {},
        Type::MR => {},
        Type::NULL => {},
        Type::WKS => {},
        Type::PTR => {},
        Type::HINFO => {},
        Type::MINFO => {},
        Type::MX => {},
        Type::TXT => {},
        Type::RP => {},
        Type::AFSDB => {},
        Type::SIG => {},
        Type::KEY => {},
        Type::AAAA => {},
        Type::LOC => {},
        Type::SRV => {},
        Type::NAPTR => {},
        Type::KX => {},
        Type::CERT => {},
        Type::DNAME => {},
        Type::APL => {},
        Type::DS => {},
        Type::SSHFP => {},
        Type::IPSECKEY => {},
        Type::RRSIG => {},
        Type::NSEC => {},
        Type::DNSKEY => {},
        Type::DHCID => {},
        Type::NSEC3 => {},
        Type::NSEC3PARAM => {},
        Type::TSLA => {},
        Type::SMIMEA => {},
        Type::HIP => {},
        Type::CDS => {},
        Type::CDNSKEY => {},
        Type::OPENPGPKEY => {},
        Type::CSYNC => {},
        Type::ZONEMD => {},
        Type::SVCB => {},
        Type::HTTOS => {},
        Type::EUI48 => {},
        Type::EUI64 => {},
        Type::TKEY => {},
        Type::TSIG => {},
        Type::URI => {},
        Type::CAA => {},
        Type::WALLET => {},
        Type::TA => {},
        Type::DLV => {},
    }
}

/// The QTYPE of a question: every TYPE, and codes that match several types.
#[derive(Debug, Clone, Copy, PartialEq, Eq, Structural)]
pub enum QType {
    /// A host address
    A,
    /// An authoritative name server
    NS,
    /// A mail destination (Obsolete - use MX)
    MD,
    /// A mail forwarder (Obsolete - use MX)
    MF,
    /// The canonical name for an alias
    CNAME,
    /// Marks the start of a zone of authority
    SOA,
    /// A mailbox domain name (EXPERIMENTAL)
    MB,
    /// A mail group member (EXPERIMENTAL)
    MG,
    /// A mail rename domain name (EXPERIMENTAL)
    MR,
    /// A null RR (EXPERIMENTAL)
    NULL,
    /// A well known service description
    WKS,
    /// A domain name pointer
    PTR,
    /// Host information
    HINFO,
    /// Mailbox or mail list information
    MINFO,
    /// Mail exchange
    MX,
    /// Text strings
    TXT,
    /// Responsible Person
    RP,
    /// Location of database servers of an AFS cell.
    AFSDB,
    SIG,
    KEY,
    AAAA,
    LOC,
    SRV,
    NAPTR,
    KX,
    CERT,
    DNAME,
    APL,
    DS,
    SSHFP,
    IPSECKEY,
    RRSIG,
    NSEC,
    DNSKEY,
    DHCID,
    NSEC3,
    NSEC3PARAM,
    TSLA,
    SMIMEA,
    HIP,
    CDS,
    CDNSKEY,
    OPENPGPKEY,
    CSYNC,
    ZONEMD,
    SVCB,
    HTTOS,
    EUI48,
    EUI64,
    TKEY,
    TSIG,
    URI,
    CAA,
    WALLET,
    TA,
    DLV,
    /// A request for a transfer of an entire zone
    AXFR,
    /// A request for mailbox-related records (MB, MG or MR)
    MAILB,
    /// A request for mail agent RRs (Obsolete - see MX)
    MAILA,
    /// A request for all records
    STAR,
}

impl View for QType {
    type V = QType;

    open spec fn view(&self) -> QType {
        *self
    }
}

/// The QType with code `v`, if any.
pub open spec fn qtype_from_code(v: u16) -> Option<QType> {
    match v {
        1 => Some(QType::A),
        2 => Some(QType::NS),
        3 => Some(QType::MD),
        4 => Some(QType::MF),
        5 => Some(QType::CNAME),
        6 => Some(QType::SOA),
        7 => Some(QType::MB),
        8 => Some(QType::MG),
        9 => Some(QType::MR),
        10 => Some(QType::NULL),
        11 => Some(QType::WKS),
        12 => Some(QType::PTR),
        13 => Some(QType::HINFO),
        14 => Some(QType::MINFO),
        15 => Some(QType::MX),
        16 => Some(QType::TXT),
        17 => Some(QType::RP),
        18 => Some(QType::AFSDB),
        24 => Some(QType::SIG),
        25 => Some(QType::KEY),
        28 => Some(QType::AAAA),
        29 => Some(QType::LOC),
        33 => Some(QType::SRV),
        35 => Some(QType::NAPTR),
        36 => Some(QType::KX),
        37 => Some(QType::CERT),
        39 => Some(QType::DNAME),
        42 => Some(QType::APL),
        43 => Some(QType::DS),
        44 => Some(QType::SSHFP),
        45 => Some(QType::IPSECKEY),
        46 => Some(QType::RRSIG),
        47 => Some(QType::NSEC),
        48 => Some(QType::DNSKEY),
        49 => Some(QType::DHCID),
        50 => Some(QType::NSEC3),
        51 => Some(QType::NSEC3PARAM),
        52 => Some(QType::TSLA),
        53 => Some(QType::SMIMEA),
        55 => Some(QType::HIP),
        59 => Some(QType::CDS),
        60 => Some(QType::CDNSKEY),
        61 => Some(QType::OPENPGPKEY),
        62 => Some(QType::CSYNC),
        63 => Some(QType::ZONEMD),
        64 => Some(QType::SVCB),
        65 => Some(QType::HTTOS),
        108 => Some(QType::EUI48),
        109 => Some(QType::EUI64),
        249 => Some(QType::TKEY),
        250 => Some(QType::TSIG),
        256 => Some(QType::URI),
        257 => Some(QType::CAA),
        262 => Some(QType::WALLET),
        32768 => Some(QType::TA),
        32769 => Some(QType::DLV),
        252 => Some(QType::AXFR),
        253 => Some(QType::MAILB),
        254 => Some(QType::MAILA),
        255 => Some(QType::STAR),
        _ => None,
    }
}

/// The QType at `pos`: a 16-bit code, which must be known.
pub open spec fn spec_qtype(msg: Seq<u8>, pos: int) -> Result<(QType, int), DecodeError> {
    match spec_read_u16(msg, pos) {
        Ok((v, end)) => match qtype_from_code(v) {
            Some(t) => Ok((t, end)),
            None => Err(DecodeError::Invalid(Invalid::UnsupportedType(v))),
        },
        Err(e) => Err(e),
    }
}

impl QType {
    /// The numeric code on the wire.
    pub open spec fn spec_code(self) -> u16 {
        match self {
            QType::A => 1,
            QType::NS => 2,
            QType::MD => 3,
            QType::MF => 4,
            QType::CNAME => 5,
            QType::SOA => 6,
            QType::MB => 7,
            QType::MG => 8,
            QType::MR => 9,
            QType::NULL => 10,
            QType::WKS => 11,
            QType::PTR => 12,
            QType::HINFO => 13,
            QType::MINFO => 14,
            QType::MX => 15,
            QType::TXT => 16,
            QType::RP => 17,
            QType::AFSDB => 18,
            QType::SIG => 24,
            QType::KEY => 25,
            QType::AAAA => 28,
            QType::LOC => 29,
            QType::SRV => 33,
            QType::NAPTR => 35,
            QType::KX => 36,
            QType::CERT => 37,
            QType::DNAME => 39,
            QType::APL => 42,
            QType::DS => 43,
            QType::SSHFP => 44,
            QType::IPSECKEY => 45,
            QType::RRSIG => 46,
            QType::NSEC => 47,
            QType::DNSKEY => 48,
            QType::DHCID => 49,
            QType::NSEC3 => 50,
            QType::NSEC3PARAM => 51,
            QType::TSLA => 52,
            QType::SMIMEA => 53,
            QType::HIP => 55,
            QType::CDS => 59,
            QType::CDNSKEY => 60,
            QType::OPENPGPKEY => 61,
            QType::CSYNC => 62,
            QType::ZONEMD => 63,
            QType::SVCB => 64,
            QType::HTTOS => 65,
            QType::EUI48 => 108,
            QType::EUI64 => 109,
            QType::TKEY => 249,
            QType::TSIG => 250,
            QType::URI => 256,
            QType::CAA => 257,
            QType::WALLET => 262,
            QType::TA => 32768,
            QType::DLV => 32769,
            QType::AXFR => 252,
            QType::MAILB => 253,
            QType::MAILA => 254,
            QType::STAR => 255,
        }
    }

    #[verifier::when_used_as_spec(spec_code)]
    pub fn code(self) -> (r: u16)
        ensures
            r == self.spec_code(),
    {
        match self {
            QType::A => 1,
            QType::NS => 2,
            QType::MD => 3,
            QType::MF => 4,
            QType::CNAME => 5,
            QType::SOA => 6,
            QType::MB => 7,
            QType::MG => 8,
            QType::MR => 9,
            QType::NULL => 10,
            QType::WKS => 11,
            QType::PTR => 12,
            QType::HINFO => 13,
            QType::MINFO => 14,
            QType::MX => 15,
            QType::TXT => 16,
            QType::RP => 17,
            QType::AFSDB => 18,
            QType::SIG => 24,
            QType::KEY => 25,
            QType::AAAA => 28,
            QType::LOC => 29,
            QType::SRV => 33,
            QType::NAPTR => 35,
            QType::KX => 36,
            QType::CERT => 37,
            QType::DNAME => 39,
            QType::APL => 42,
            QType::DS => 43,
            QType::SSHFP => 44,
            QType::IPSECKEY => 45,
            QType::RRSIG => 46,
            QType::NSEC => 47,
            QType::DNSKEY => 48,
            QType::DHCID => 49,
            QType::NSEC3 => 50,
            QType::NSEC3PARAM => 51,
            QType::TSLA => 52,
            QType::SMIMEA => 53,
            QType::HIP => 55,
            QType::CDS => 59,
            QType::CDNSKEY => 60,
            QType::OPENPGPKEY => 61,
            QType::CSYNC => 62,
            QType::ZONEMD => 63,
            QType::SVCB => 64,
            QType::HTTOS => 65,
            QType::EUI48 => 108,
            QType::EUI64 => 109,
            QType::TKEY => 249,
            QType::TSIG => 250,
            QType::URI => 256,
            QType::CAA => 257,
            QType::WALLET => 262,
            QType::TA => 32768,
            QType::DLV => 32769,
            QType::AXFR => 252,
            QType::MAILB => 253,
            QType::MAILA => 254,
            QType::STAR => 255,
        }
    }

    /// The value with code `v`, if the code is known.
    pub fn from_code(v: u16) -> (r: Option<QType>)
        ensures
            r == qtype_from_code(v),
    {
        match v {
            1 => Some(QType::A),
            2 => Some(QType::NS),
            3 => Some(QType::MD),
            4 => Some(QType::MF),
            5 => Some(QType::CNAME),
            6 => Some(QType::SOA),
            7 => Some(QType::MB),
            8 => Some(QType::MG),
            9 => Some(QType::MR),
            10 => Some(QType::NULL),
            11 => Some(QType::WKS),
            12 => Some(QType::PTR),
            13 => Some(QType::HINFO),
            14 => Some(QType::MINFO),
            15 => Some(QType::MX),
            16 => Some(QType::TXT),
            17 => Some(QType::RP),
            18 => Some(QType::AFSDB),
            24 => Some(QType::SIG),
            25 => Some(QType::KEY),
            28 => Some(QType::AAAA),
            29 => Some(QType::LOC),
            33 => Some(QType::SRV),
            35 => Some(QType::NAPTR),
            36 => Some(QType::KX),
            37 => Some(QType::CERT),
            39 => Some(QType::DNAME),
            42 => Some(QType::APL),
            43 => Some(QType::DS),
            44 => Some(QType::SSHFP),
            45 => Some(QType::IPSECKEY),
            46 => Some(QType::RRSIG),
            47 => Some(QType::NSEC),
            48 => Some(QType::DNSKEY),
            49 => Some(QType::DHCID),
            50 => Some(QType::NSEC3),
            51 => Some(QType::NSEC3PARAM),
            52 => Some(QType::TSLA),
            53 => Some(QType::SMIMEA),
            55 => Some(QType::HIP),
            59 => Some(QType::CDS),
            60 => Some(QType::CDNSKEY),
            61 => Some(QType::OPENPGPKEY),
            62 => Some(QType::CSYNC),
            63 => Some(QType::ZONEMD),
            64 => Some(QType::SVCB),
            65 => Some(QType::HTTOS),
            108 => Some(QType::EUI48),
            109 => Some(QType::EUI64),
            249 => Some(QType::TKEY),
            250 => Some(QType::TSIG),
            256 => Some(QType::URI),
            257 => Some(QType::CAA),
            262 => Some(QType::WALLET),
            32768 => Some(QType::TA),
            32769 => Some(QType::DLV),
            252 => Some(QType::AXFR),
            253 => Some(QType::MAILB),
            254 => Some(QType::MAILA),
            255 => Some(QType::STAR),
            _ => None,
        }
    }

    /// Reads the 16-bit code at `pos`; an unknown code is invalid.
    pub fn decode(msg: &[u8], pos: usize) -> (r: Result<(QType, usize), DecodeError>)
        requires
            pos <= msg@.len(),
        ensures
            decoded_as(r, spec_qtype(msg@, pos as int)),
    {
        match read_u16(msg, pos) {
            Ok((v, end)) => match QType::from_code(v) {
                Some(t) => Ok((t, end)),
                None => Err(DecodeError::Invalid(Invalid::UnsupportedType(v))),
            },
            Err(e) => Err(e),
        }
    }

    /// Appends the code in network order.
    pub fn encode(self, dst: &mut Vec<u8>)
        ensures
            final(dst)@ == old(dst)@ + u16_octets(self.code()),
    {
        write_u16(dst, self.code());
    }
}

/// Each QType is found again from its code.
pub proof fn lemma_qtype_code_round_trip(t: QType)
    ensures
        qtype_from_code(t.code()) == Some(t),
{
    match t {
        QType::A => {},
        QType::NS => {},
        QType::MD => {},
        QType::MF => {},
        QType::CNAME => {},
        QType::SOA => {},
        QType::MB => {},
        QType::MG => {},
        QType::MR => {},
        QType::NULL => {},
        QType::WKS => {},
        QType::PTR => {},
        QType::HINFO => {},
        QType::MINFO => {},
        QType::MX => {},
        QType::TXT => {},
        QType::RP => {},
        QType::AFSDB => {},
        QType::SIG => {},
        QType::KEY => {},
        QType::AAAA => {},
        QType::LOC => {},
        QType::SRV => {},
        QType::NAPTR => {},
        QType::KX => {},
        QType::CERT => {},
        QType::DNAME => {},
        QType::APL => {},
        QType::DS => {},
        QType::SSHFP => {},
        QType::IPSECKEY => {},
        QType::RRSIG => {},
        QType::NSEC => {},
        QType::DNSKEY => {},
        QType::DHCID => {},
        QType::NSEC3 => {},
        QType::NSEC3PARAM => {},
        QType::TSLA => {},
        QType::SMIMEA => {},
        QType::HIP => {},
        QType::CDS => {},
        QType::CDNSKEY => {},
        QType::OPENPGPKEY => {},
        QType::CSYNC => {},
        QType::ZONEMD => {},
        QType::SVCB => {},
        QType::HTTOS => {},
        QType::EUI48 => {},
        QType::EUI64 => {},
        QType::TKEY => {},
        QType::TSIG => {},
        QType::URI => {},
        QType::CAA => {},
        QType::WALLET => {},
        QType::TA => {},
        QType::DLV => {},
        QType::AXFR => {},
        QType::MAILB => {},
        QType::MAILA => {},
        QType::STAR => {},
    }
}

/// The CLASS of a resource record.
#[derive(Debug, Clone, Copy, PartialEq, Eq, Structural)]
pub enum Class {
    /// The Internet
    IN,
    /// The CSNET class
    CS,
    /// The CHAOS class
    CH,
    /// Hesiod
    HS,
}

impl View for Class {
    type V = Class;

    open spec fn view(&self) -> Class {
        *self
    }
}

/// The Class with code `v`, if any.
pub open spec fn class_from_code(v: u16) -> Option<Class> {
    match v {
        1 => Some(Class::IN),
        2 => Some(Class::CS),
        3 => Some(Class::CH),
        4 => Some(Class::HS),
        _ => None,
    }
}

/// The Class at `pos`: a 16-bit code, which must be known.
pub open spec fn spec_class(msg: Seq<u8>, pos: int) -> Result<(Class, int), DecodeError> {
    match spec_read_u16(msg, pos) {
        Ok((v, end)) => match class_from_code(v) {
            Some(t) => Ok((t, end)),
            None => Err(DecodeError::Invalid(Invalid::UnsupportedClass(v))),
        },
        Err(e) => Err(e),
    }
}

impl Class {
    /// The numeric code on the wire.
    pub open spec fn spec_code(self) -> u16 {
        match self {
            Class::IN => 1,
            Class::CS => 2,
            Class::CH => 3,
            Class::HS => 4,
        }
    }

    #[verifier::when_used_as_spec(spec_code)]
    pub fn code(self) -> (r: u16)
        ensures
            r == self.spec_code(),
    {
        match self {
            Class::IN => 1,
            Class::CS => 2,
            Class::CH => 3,
            Class::HS => 4,
        }
    }

    /// The value with code `v`, if the code is known.
    pub fn from_code(v: u16) -> (r: Option<Class>)
        ensures
            r == class_from_code(v),
    {
        match v {
            1 => Some(Class::IN),
            2 => Some(Class::CS),
            3 => Some(Class::CH),
            4 => Some(Class::HS),
            _ => None,
        }
    }

    /// Reads the 16-bit code at `pos`; an unknown code is invalid.
    pub fn decode(msg: &[u8], pos: usize) -> (r: Result<(Class, usize), DecodeError>)
        requires
            pos <= msg@.len(),
        ensures
            decoded_as(r, spec_class(msg@, pos as int)),
    {
        match read_u16(msg, pos) {
            Ok((v, end)) => match Class::from_code(v) {
                Some(t) => Ok((t, end)),
                None => Err(DecodeError::Invalid(Invalid::UnsupportedClass(v))),
            },
            Err(e) => Err(e),
        }
    }

    /// Appends the code in network order.
    pub fn encode(self, dst: &mut Vec<u8>)
        ensures
            final(dst)@ == old(dst)@ + u16_octets(self.code()),
    {
        write_u16(dst, self.code());
    }
}

/// Each Class is found again from its code.
pub proof fn lemma_class_code_round_trip(t: Class)
    ensures
        class_from_code(t.code()) == Some(t),
{
    match t {
        Class::IN => {},
        Class::CS => {},
        Class::CH => {},
        Class::HS => {},
    }
}

/// The QCLASS of a question: every CLASS, and the wildcard.
#[derive(Debug, Clone, Copy, PartialEq, Eq, Structural)]
pub enum QClass {
    /// The Internet
    IN,
    /// The CSNET class
    CS,
    /// The CHAOS class
    CH,
    /// Hesiod
    HS,
    /// Any class
    STAR,
}

impl View for QClass {
    type V = QClass;

    open spec fn view(&self) -> QClass {
        *self
    }
}

/// The QClass with code `v`, if any.
pub open spec fn qclass_from_code(v: u16) -> Option<QClass> {
    match v {
        1 => Some(QClass::IN),
        2 => Some(QClass::CS),
        3 => Some(QClass::CH),
        4 => Some(QClass::HS),
        255 => Some(QClass::STAR),
        _ => None,
    }
}

/// The QClass at `pos`: a 16-bit code, which must be known.
pub open spec fn spec_qclass(msg: Seq<u8>, pos: int) -> Result<(QClass, int), DecodeError> {
    match spec_read_u16(msg, pos) {
        Ok((v, end)) => match qclass_from_code(v) {
            Some(t) => Ok((t, end)),
            None => Err(DecodeError::Invalid(Invalid::UnsupportedClass(v))),
        },
        Err(e) => Err(e),
    }
}

impl QClass {
    /// The numeric code on the wire.
    pub open spec fn spec_code(self) -> u16 {
        match self {
            QClass::IN => 1,
            QClass::CS => 2,
            QClass::CH => 3,
            QClass::HS => 4,
            QClass::STAR => 255,
        }
    }

    #[verifier::when_used_as_spec(spec_code)]
    pub fn code(self) -> (r: u16)
        ensures
            r == self.spec_code(),
    {
        match self {
            QClass::IN => 1,
            QClass::CS => 2,
            QClass::CH => 3,
            QClass::HS => 4,
            QClass::STAR => 255,
        }
    }

    /// The value with code `v`, if the code is known.
    pub fn from_code(v: u16) -> (r: Option<QClass>)
        ensures
            r == qclass_from_code(v),
    {
        match v {
            1 => Some(QClass::IN),
            2 => Some(QClass::CS),
            3 => Some(QClass::CH),
            4 => Some(QClass::HS),
            255 => Some(QClass::STAR),
            _ => None,
        }
    }

    /// Reads the 16-bit code at `pos`; an unknown code is invalid.
    pub fn decode(msg: &[u8], pos: usize) -> (r: Result<(QClass, usize), DecodeError>)
        requires
            pos <= msg@.len(),
        ensures
            decoded_as(r, spec_qclass(msg@, pos as int)),
    {
        match read_u16(msg, pos) {
            Ok((v, end)) => match QClass::from_code(v) {
                Some(t) => Ok((t, end)),
                None => Err(DecodeError::Invalid(Invalid::UnsupportedClass(v))),
            },
            Err(e) => Err(e),
        }
    }

    /// Appends the code in network order.
    pub fn encode(self, dst: &mut Vec<u8>)
        ensures
            final(dst)@ == old(dst)@ + u16_octets(self.code()),
    {
        write_u16(dst, self.code());
    }
}

/// Each QClass is found again from its code.
pub proof fn lemma_qclass_code_round_trip(t: QClass)
    ensures
        qclass_from_code(t.code()) == Some(t),
{
    match t {
        QClass::IN => {},
        QClass::CS => {},
        QClass::CH => {},
        QClass::HS => {},
        QClass::STAR => {},
    }
}

impl From<Type> for QType {
    fn from(t: Type) -> (r: QType) {
        match t {
            Type::A => QType::A,
            Type::NS => QType::NS,
            Type::MD => QType::MD,
            Type::MF => QType::MF,
            Type::CNAME => QType::CNAME,
            Type::SOA => QType::SOA,
            Type::MB => QType::MB,
            Type::MG => QType::MG,
            Type::MR => QType::MR,
            Type::NULL => QType::NULL,
            Type::WKS => QType::WKS,
            Type::PTR => QType::PTR,
            Type::HINFO => QType::HINFO,
            Type::MINFO => QType::MINFO,
            Type::MX => QType::MX,
            Type::TXT => QType::TXT,
            Type::RP => QType::RP,
            Type::AFSDB => QType::AFSDB,
            Type::SIG => QType::SIG,
            Type::KEY => QType::KEY,
            Type::AAAA => QType::AAAA,
            Type::LOC => QType::LOC,
            Type::SRV => QType::SRV,
            Type::NAPTR => QType::NAPTR,
            Type::KX => QType::KX,
            Type::CERT => QType::CERT,
            Type::DNAME => QType::DNAME,
            Type::APL => QType::APL,
            Type::DS => QType::DS,
            Type::SSHFP => QType::SSHFP,
            Type::IPSECKEY => QType::IPSECKEY,
            Type::RRSIG => QType::RRSIG,
            Type::NSEC => QType::NSEC,
            Type::DNSKEY => QType::DNSKEY,
            Type::DHCID => QType::DHCID,
            Type::NSEC3 => QType::NSEC3,
            Type::NSEC3PARAM => QType::NSEC3PARAM,
            Type::TSLA => QType::TSLA,
            Type::SMIMEA => QType::SMIMEA,
            Type::HIP => QType::HIP,
            Type::CDS => QType::CDS,
            Type::CDNSKEY => QType::CDNSKEY,
            Type::OPENPGPKEY => QType::OPENPGPKEY,
            Type::CSYNC => QType::CSYNC,
            Type::ZONEMD => QType::ZONEMD,
            Type::SVCB => QType::SVCB,
            Type::HTTOS => QType::HTTOS,
            Type::EUI48 => QType::EUI48,
            Type::EUI64 => QType::EUI64,
            Type::TKEY => QType::TKEY,
            Type::TSIG => QType::TSIG,
            Type::URI => QType::URI,
            Type::CAA => QType::CAA,
            Type::WALLET => QType::WALLET,
            Type::TA => QType::TA,
            Type::DLV => QType::DLV,
        }
    }
}

impl vstd::std_specs::convert::FromSpecImpl<Type> for QType {
    open spec fn obeys_from_spec() -> bool {
        true
    }

    /// Every TYPE is the QTYPE with the same code.
    open spec fn from_spec(t: Type) -> QType {
        qtype_from_code(t.spec_code())->Some_0
    }
}

/// Every TYPE code is also a QTYPE code.
pub proof fn lemma_type_is_qtype(t: Type)
    ensures
        qtype_from_code(t.spec_code()) is Some,
        (qtype_from_code(t.spec_code())->Some_0).spec_code() == t.spec_code(),
{
    match t {
        Type::A => {},
        Type::NS => {},
        Type::MD => {},
        Type::MF => {},
        Type::CNAME => {},
        Type::SOA => {},
        Type::MB => {},
        Type::MG => {},
        Type::MR => {},
        Type::NULL => {},
        Type::WKS => {},
        Type::PTR => {},
        Type::HINFO => {},
        Type::MINFO => {},
        Type::MX => {},
        Type::TXT => {},
        Type::RP => {},
        Type::AFSDB => {},
        Type::SIG => {},
        Type::KEY => {},
        Type::AAAA => {},
        Type::LOC => {},
        Type::SRV => {},
        Type::NAPTR => {},
        Type::KX => {},
        Type::CERT => {},
        Type::DNAME => {},
        Type::APL => {},
        Type::DS => {},
        Type::SSHFP => {},
        Type::IPSECKEY => {},
        Type::RRSIG => {},
        Type::NSEC => {},
        Type::DNSKEY => {},
        Type::DHCID => {},
        Type::NSEC3 => {},
        Type::NSEC3PARAM => {},
        Type::TSLA => {},
        Type::SMIMEA => {},
        Type::HIP => {},
        Type::CDS => {},
        Type::CDNSKEY => {},
        Type::OPENPGPKEY => {},
        Type::CSYNC => {},
        Type::ZONEMD => {},
        Type::SVCB => {},
        Type::HTTOS => {},
        Type::EUI48 => {},
        Type::EUI64 => {},
        Type::TKEY => {},
        Type::TSIG => {},
        Type::URI => {},
        Type::CAA => {},
        Type::WALLET => {},
        Type::TA => {},
        Type::DLV => {},
    }
}

/// The largest TTL: the sign bit of the 32-bit field must be clear.
pub const MAX_TTL: u32 = 0x7fff_ffff;

/// A record's time to live, in seconds; never negative.
#[derive(Debug, Clone, Copy, PartialEq, Eq, Structural)]
pub struct Ttl(i32);

impl View for Ttl {
    type V = Ttl;

    open spec fn view(&self) -> Ttl {
        *self
    }
}

impl Ttl {
    /// The number of seconds.
    pub closed spec fn spec_seconds(self) -> int {
        self.0 as int
    }

    /// A TTL of `seconds`, which must not be negative.
    pub fn new(seconds: i32) -> (r: Option<Ttl>)
        ensures
            r is Some <==> seconds >= 0,
            r matches Some(t) ==> t.spec_seconds() == seconds,
    {
        if seconds < 0 {
            None
        } else {
            Some(Ttl(seconds))
        }
    }

    /// The number of seconds.
    pub fn seconds(self) -> (r: i32)
        ensures
            r == self.spec_seconds(),
            r >= 0,
    {
        proof {
            use_type_invariant(self);
        }
        self.0
    }

    #[verifier::type_invariant]
    spec fn non_negative(self) -> bool {
        self.0 >= 0
    }

    /// Reads the 32-bit TTL at `pos`; one with its sign bit set is invalid.
    pub fn decode(msg: &[u8], pos: usize) -> (r: Result<(Ttl, usize), DecodeError>)
        requires
            pos <= msg@.len(),
        ensures
            match spec_read_u32(msg@, pos as int) {
                Ok((v, end)) => if v > MAX_TTL {
                    r == Err::<(Ttl, usize), DecodeError>(DecodeError::Invalid(Invalid::NegativeTtl))
                } else {
                    r matches Ok((t, e)) && t.spec_seconds() == v && e == end
                },
                Err(x) => r == Err::<(Ttl, usize), DecodeError>(x),
            },
    {
        match read_u32(msg, pos) {
            Ok((v, end)) => {
                if v > MAX_TTL {
                    Err(DecodeError::Invalid(Invalid::NegativeTtl))
                } else {
                    Ok((Ttl(v as i32), end))
                }
            },
            Err(e) => Err(e),
        }
    }
}

} // verus!
