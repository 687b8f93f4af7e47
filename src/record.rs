//! Resource records and their type-dispatched RDATA.
use vstd::prelude::*;

use crate::codes::{spec_class, spec_type, Class, Ttl, Type, MAX_TTL};
use crate::error::{DecodeError, Invalid};
use crate::name::{spec_name, Name};
use crate::wire::{read_u16, spec_read_u16, spec_read_u32};

verus! {

/// The payload of a record, parsed where its (TYPE, CLASS) pair is known.
#[derive(Debug, Clone, PartialEq, Eq)]
pub enum RData {
    /// An IPv4 address, octets in network order (A, IN).
    Ipv4([u8; 4]),
    /// An IPv6 address, octets in network order (AAAA, IN).
    Ipv6([u8; 16]),
    /// A domain name (NS, CNAME, PTR or MX, in IN).
    Name(Name),
    /// The raw octets of any other pair.
    Opaque(Vec<u8>),
}

/// RDATA as a value.
pub enum RDataModel {
    Ipv4(Seq<u8>),
    Ipv6(Seq<u8>),
    Name(Seq<u8>),
    Opaque(Seq<u8>),
}

impl View for RData {
    type V = RDataModel;

    open spec fn view(&self) -> RDataModel {
        match self {
            RData::Ipv4(a) => RDataModel::Ipv4(a@),
            RData::Ipv6(a) => RDataModel::Ipv6(a@),
            RData::Name(n) => RDataModel::Name(n@),
            RData::Opaque(b) => RDataModel::Opaque(b@),
        }
    }
}

#[derive(Debug, Clone, PartialEq, Eq)]
pub struct Record {
    /// The domain name this record pertains to.
    pub name: Name,
    /// The meaning of the RDATA.
    pub kind: Type,
    /// The class of the RDATA.
    pub class: Class,
    /// How long the record may be cached.
    pub ttl: Ttl,
    /// The declared length of the RDATA in octets.
    pub length: u16,
    pub rdata: RData,
}

/// A record as a value; the TTL in seconds.
pub struct RecordModel {
    pub name: Seq<u8>,
    pub kind: Type,
    pub class: Class,
    pub ttl: int,
    pub length: u16,
    pub rdata: RDataModel,
}

impl View for Record {
    type V = RecordModel;

    open spec fn view(&self) -> RecordModel {
        RecordModel {
            name: self.name@,
            kind: self.kind,
            class: self.class,
            ttl: self.ttl.spec_seconds(),
            length: self.length,
            rdata: self.rdata@,
        }
    }
}

/// Whether RDATA of this pair is a (possibly compressed) domain name.
pub open spec fn holds_name(kind: Type, class: Class) -> bool {
    class == Class::IN && (kind == Type::NS || kind == Type::CNAME || kind == Type::PTR || kind
        == Type::MX)
}

/// The RDATA in the frame `[pos, pos + len)` of `msg`, which lies within it.
/// A name may point anywhere in the message, but its inline octets must stay
/// in the frame.
pub open spec fn spec_rdata(msg: Seq<u8>, pos: int, len: int, kind: Type, class: Class) -> Result<
    RDataModel,
    DecodeError,
> {
    if kind == Type::A && class == Class::IN {
        if len < 4 {
            Err(DecodeError::Invalid(Invalid::RDataTruncated))
        } else {
            Ok(RDataModel::Ipv4(msg.subrange(pos, pos + 4)))
        }
    } else if kind == Type::AAAA && class == Class::IN {
        if len < 16 {
            Err(DecodeError::Invalid(Invalid::RDataTruncated))
        } else {
            Ok(RDataModel::Ipv6(msg.subrange(pos, pos + 16)))
        }
    } else if holds_name(kind, class) {
        match spec_name(msg, pos) {
            Ok((n, end)) => if end > pos + len {
                Err(DecodeError::Invalid(Invalid::RDataTruncated))
            } else {
                Ok(RDataModel::Name(n))
            },
            Err(e) => Err(e),
        }
    } else {
        Ok(RDataModel::Opaque(msg.subrange(pos, pos + len)))
    }
}

/// The record at `pos`: name, TYPE, CLASS, a TTL whose sign bit is clear,
/// the RDATA length, then exactly that many octets of RDATA.
pub open spec fn spec_record(msg: Seq<u8>, pos: int) -> Result<(RecordModel, int), DecodeError> {
    match spec_name(msg, pos) {
        Ok((name, p1)) => match spec_type(msg, p1) {
            Ok((kind, p2)) => match spec_class(msg, p2) {
                Ok((class, p3)) => match spec_read_u32(msg, p3) {
                    Ok((ttl, p4)) => if ttl > MAX_TTL {
                        Err(DecodeError::Invalid(Invalid::NegativeTtl))
                    } else {
                        match spec_read_u16(msg, p4) {
                            Ok((length, p5)) => if p5 + length > msg.len() {
                                Err(DecodeError::NeedMore)
                            } else {
                                match spec_rdata(msg, p5, length as int, kind, class) {
                                    Ok(rdata) => Ok(
                                        (
                                            RecordModel {
                                                name,
                                                kind,
                                                class,
                                                ttl: ttl as int,
                                                length,
                                                rdata,
                                            },
                                            p5 + length,
                                        ),
                                    ),
                                    Err(e) => Err(e),
                                }
                            },
                            Err(e) => Err(e),
                        }
                    },
                    Err(e) => Err(e),
                },
                Err(e) => Err(e),
            },
            Err(e) => Err(e),
        },
        Err(e) => Err(e),
    }
}

/// A record decoder's result in the model.
pub open spec fn record_decoded_as(
    r: Result<(Record, usize), DecodeError>,
    s: Result<(RecordModel, int), DecodeError>,
) -> bool {
    match r {
        Ok((v, end)) => s matches Ok((m, e)) && v@ == m && end == e,
        Err(x) => s == Err::<(RecordModel, int), DecodeError>(x),
    }
}

impl RData {
    /// Parses the RDATA frame `[pos, pos + len)` by the record's type and class.
    pub fn decode(msg: &[u8], pos: usize, len: u16, kind: Type, class: Class) -> (r: Result<
        RData,
        DecodeError,
    >)
        requires
            pos + len <= msg@.len(),
        ensures
            match spec_rdata(msg@, pos as int, len as int, kind, class) {
                Ok(m) => r matches Ok(d) && d@ == m,
                Err(e) => r == Err::<RData, DecodeError>(e),
            },
    {
        let len = len as usize;
        if kind == Type::A && class == Class::IN {
            if len < 4 {
                return Err(DecodeError::Invalid(Invalid::RDataTruncated));
            }
            let a: [u8; 4] = [msg[pos], msg[pos + 1], msg[pos + 2], msg[pos + 3]];
            assert(a@ =~= msg@.subrange(pos as int, pos + 4));
            Ok(RData::Ipv4(a))
        } else if kind == Type::AAAA && class == Class::IN {
            if len < 16 {
                return Err(DecodeError::Invalid(Invalid::RDataTruncated));
            }
            let a: [u8; 16] = [
                msg[pos],
                msg[pos + 1],
                msg[pos + 2],
                msg[pos + 3],
                msg[pos + 4],
                msg[pos + 5],
                msg[pos + 6],
                msg[pos + 7],
                msg[pos + 8],
                msg[pos + 9],
                msg[pos + 10],
                msg[pos + 11],
                msg[pos + 12],
                msg[pos + 13],
                msg[pos + 14],
                msg[pos + 15],
            ];
            assert(a@ =~= msg@.subrange(pos as int, pos + 16));
            Ok(RData::Ipv6(a))
        } else if class == Class::IN && (kind == Type::NS || kind == Type::CNAME || kind == Type::PTR
            || kind == Type::MX) {
            match Name::decode(msg, pos) {
                Ok((n, end)) => {
                    if end - pos > len {
                        Err(DecodeError::Invalid(Invalid::RDataTruncated))
                    } else {
                        Ok(RData::Name(n))
                    }
                },
                Err(e) => Err(e),
            }
        } else {
            let mut out: Vec<u8> = Vec::new();
            let total = msg.len();
            assert(pos + len <= total);
            let stop = pos + len;
            let mut i: usize = 0;
            while i < len
                invariant
                    i <= len,
                    stop == pos + len,
                    stop <= msg@.len(),
                    out@ == msg@.subrange(pos as int, pos + i),
                decreases len - i,
            {
                out.push(msg[pos + i]);
                i = i + 1;
                assert(out@ =~= msg@.subrange(pos as int, pos + i));
            }
            Ok(RData::Opaque(out))
        }
    }
}

impl Record {
    /// Reads the record at `pos`, with its RDATA parsed by type and class.
    pub fn decode(msg: &[u8], pos: usize) -> (r: Result<(Record, usize), DecodeError>)
        requires
            pos <= msg@.len(),
        ensures
            record_decoded_as(r, spec_record(msg@, pos as int)),
            r matches Ok((_, e)) ==> pos < e <= msg@.len(),
    {
        let (name, p) = match Name::decode(msg, pos) {
            Ok(v) => v,
            Err(e) => return Err(e),
        };
        let (kind, p) = match Type::decode(msg, p) {
            Ok(v) => v,
            Err(e) => return Err(e),
        };
        let (class, p) = match Class::decode(msg, p) {
            Ok(v) => v,
            Err(e) => return Err(e),
        };
        let (ttl, p) = match Ttl::decode(msg, p) {
            Ok(v) => v,
            Err(e) => return Err(e),
        };
        let (length, p) = match read_u16(msg, p) {
            Ok(v) => v,
            Err(e) => return Err(e),
        };
        if msg.len() - p < length as usize {
            return Err(DecodeError::NeedMore);
        }
        let rdata = match RData::decode(msg, p, length, kind, class) {
            Ok(d) => d,
            Err(e) => return Err(e),
        };
        Ok((Record { name, kind, class, ttl, length, rdata }, p + length as usize))
    }
}

/// A record whose name, type and class read well but whose TTL word has its
/// sign bit set is rejected as a negative TTL.
pub proof fn lemma_negative_ttl_rejected(msg: Seq<u8>, pos: int)
    requires
        spec_name(msg, pos) is Ok,
        spec_type(msg, (spec_name(msg, pos)->Ok_0).1) is Ok,
        spec_class(msg, (spec_type(msg, (spec_name(msg, pos)->Ok_0).1)->Ok_0).1) is Ok,
        ({
            let at = (spec_class(msg, (spec_type(msg, (spec_name(msg, pos)->Ok_0).1)->Ok_0).1)->Ok_0).1;
            spec_read_u32(msg, at) is Ok && (spec_read_u32(msg, at)->Ok_0).0 > MAX_TTL
        }),
    ensures
        spec_record(msg, pos) == Err::<(RecordModel, int), DecodeError>(
            DecodeError::Invalid(Invalid::NegativeTtl),
        ),
{
}

} // verus!
