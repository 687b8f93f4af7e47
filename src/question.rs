//! The entries of the question section.
use vstd::prelude::*;

use crate::codes::{
    lemma_qclass_code_round_trip, lemma_qtype_code_round_trip, spec_qclass, spec_qtype, QClass,
    QType,
};
use crate::error::DecodeError;
use crate::name::{
    encodable, lemma_join_name_labels, lemma_parse_labels_wire, name_labels, name_wire, spec_name,
    Name, NameError,
};
use crate::wire::{decoded_as, u16_octets};

verus! {

#[derive(Debug, Clone, PartialEq, Eq)]
pub struct Question {
    pub name: Name,
    /// The type of the query: every TYPE, and codes that match several types.
    pub kind: QType,
    /// The class of the query, such as IN for the Internet.
    pub class: QClass,
}

/// A question as a value.
pub struct QuestionModel {
    pub name: Seq<u8>,
    pub kind: QType,
    pub class: QClass,
}

impl View for Question {
    type V = QuestionModel;

    open spec fn view(&self) -> QuestionModel {
        QuestionModel { name: self.name@, kind: self.kind, class: self.class }
    }
}

/// The question at `pos`: a name, a QTYPE and a QCLASS.
pub open spec fn spec_question(msg: Seq<u8>, pos: int) -> Result<(QuestionModel, int), DecodeError> {
    match spec_name(msg, pos) {
        Ok((name, p1)) => match spec_qtype(msg, p1) {
            Ok((kind, p2)) => match spec_qclass(msg, p2) {
                Ok((class, p3)) => Ok((QuestionModel { name, kind, class }, p3)),
                Err(e) => Err(e),
            },
            Err(e) => Err(e),
        },
        Err(e) => Err(e),
    }
}

/// The question's octets on the wire, its name uncompressed.
pub open spec fn question_wire(q: QuestionModel) -> Seq<u8> {
    name_wire(q.name) + u16_octets(q.kind.spec_code()) + u16_octets(q.class.spec_code())
}

/// Whether every label of the name has 1 to 63 octets.
pub open spec fn plain_labels(s: Seq<u8>) -> bool {
    forall|i: int| 0 <= i < name_labels(s).len() ==> 1 <= #[trigger] name_labels(s)[i].len() <= 63
}

impl Question {
    /// Reads the question at `pos`; its name may be compressed.
    pub fn decode(msg: &[u8], pos: usize) -> (r: Result<(Question, usize), DecodeError>)
        requires
            pos <= msg@.len(),
        ensures
            decoded_as(r, spec_question(msg@, pos as int)),
            r matches Ok((_, e)) ==> pos < e <= msg@.len(),
    {
        let (name, p) = match Name::decode(msg, pos) {
            Ok(v) => v,
            Err(e) => return Err(e),
        };
        let (kind, p) = match QType::decode(msg, p) {
            Ok(v) => v,
            Err(e) => return Err(e),
        };
        let (class, p) = match QClass::decode(msg, p) {
            Ok(v) => v,
            Err(e) => return Err(e),
        };
        Ok((Question { name, kind, class }, p))
    }

    /// Appends the question; fails, writing nothing, where a label of the
    /// name is longer than 63 octets.
    pub fn encode(&self, dst: &mut Vec<u8>) -> (r: Result<(), NameError>)
        ensures
            r is Ok <==> encodable(self.name@),
            r is Ok ==> final(dst)@ == old(dst)@ + question_wire(self@),
            r is Err ==> final(dst)@ == old(dst)@,
    {
        match self.name.encode(dst) {
            Ok(()) => {},
            Err(e) => return Err(e),
        }
        self.kind.encode(dst);
        self.class.encode(dst);
        assert(dst@ =~= old(dst)@ + question_wire(self@));
        Ok(())
    }
}

/// A question whose labels have 1 to 63 octets, encoded after any `prefix`,
/// decodes there as itself.
pub proof fn lemma_question_round_trip(prefix: Seq<u8>, q: QuestionModel, rest: Seq<u8>)
    requires
        plain_labels(q.name),
    ensures
        spec_question(prefix + question_wire(q) + rest, prefix.len() as int) == Ok::<
            (QuestionModel, int),
            DecodeError,
        >((q, (prefix.len() + question_wire(q).len()) as int)),
{
    let labels = name_labels(q.name);
    let msg = prefix + question_wire(q) + rest;
    let tail = u16_octets(q.kind.spec_code()) + u16_octets(q.class.spec_code()) + rest;
    assert(msg =~= prefix + crate::name::labels_wire(labels) + seq![0u8] + tail);
    lemma_parse_labels_wire(prefix, labels, tail, 0);
    lemma_join_name_labels(q.name);
    let p1 = (prefix.len() + name_wire(q.name).len()) as int;
    assert(spec_name(msg, prefix.len() as int) == Ok::<(Seq<u8>, int), DecodeError>((q.name, p1)));
    lemma_qtype_code_round_trip(q.kind);
    lemma_qclass_code_round_trip(q.class);
    assert(msg[p1] == u16_octets(q.kind.spec_code())[0]);
    assert(msg[p1 + 1] == u16_octets(q.kind.spec_code())[1]);
    assert(msg[p1 + 2] == u16_octets(q.class.spec_code())[0]);
    assert(msg[p1 + 3] == u16_octets(q.class.spec_code())[1]);
}

} // verus!
