//! Whole messages: a query (header and one question) and a response (header
//! and four sections), decoded eagerly from a buffer.
use vstd::prelude::*;

use crate::buffer::{append, buffer_contents, consume, contents};
use crate::error::{DecodeError, Invalid};
use crate::wire::MAX_MESSAGE_LEN;
use crate::codes::lemma_qtype_code_round_trip;
use crate::header::{header_octets, lemma_header_round_trip, spec_header, Header};
use crate::name::{
    encodable, labels_wire, lemma_join_name_labels, lemma_labels_wire_cut, lemma_parse_labels_wire,
    name_labels, NameError,
};
use bytes::BytesMut;
use crate::question::{
    lemma_question_round_trip, plain_labels, question_wire, spec_question, Question, QuestionModel,
};
use crate::record::{spec_record, Record, RecordModel};
use crate::wire::{decoded_as, u16_octets};

verus! {

/// A query: a header and its single question.
#[derive(Debug, Clone, PartialEq, Eq)]
pub struct Query {
    pub header: Header,
    pub question: Question,
}

pub struct QueryModel {
    pub header: Header,
    pub question: QuestionModel,
}

impl View for Query {
    type V = QueryModel;

    open spec fn view(&self) -> QueryModel {
        QueryModel { header: self.header, question: self.question@ }
    }
}

/// The query at `pos`: a header whose question count is 1, then the question.
pub open spec fn spec_query(msg: Seq<u8>, pos: int) -> Result<(QueryModel, int), DecodeError> {
    match spec_header(msg, pos) {
        Ok((header, p1)) => if header.qdcount != 1 {
            Err(DecodeError::Invalid(Invalid::CountMismatch))
        } else {
            match spec_question(msg, p1) {
                Ok((question, p2)) => Ok((QueryModel { header, question }, p2)),
                Err(e) => Err(e),
            }
        },
        Err(e) => Err(e),
    }
}

/// The query's octets on the wire.
pub open spec fn query_wire(q: QueryModel) -> Seq<u8> {
    header_octets(q.header) + question_wire(q.question)
}

impl Query {
    /// Reads the query at `pos`; a header that does not count exactly one
    /// question is a count mismatch.
    pub fn decode(msg: &[u8], pos: usize) -> (r: Result<(Query, usize), DecodeError>)
        requires
            pos <= msg@.len(),
        ensures
            decoded_as(r, spec_query(msg@, pos as int)),
            r matches Ok((_, e)) ==> pos < e <= msg@.len(),
    {
        let (header, p) = match Header::decode(msg, pos) {
            Ok(v) => v,
            Err(e) => return Err(e),
        };
        if header.qdcount != 1 {
            return Err(DecodeError::Invalid(Invalid::CountMismatch));
        }
        let (question, p) = match Question::decode(msg, p) {
            Ok(v) => v,
            Err(e) => return Err(e),
        };
        Ok((Query { header, question }, p))
    }

    /// Appends the query; fails, writing nothing, where a label of the name
    /// is longer than 63 octets.
    pub fn encode(&self, dst: &mut Vec<u8>) -> (r: Result<(), NameError>)
        ensures
            r is Ok <==> encodable(self.question.name@),
            r is Ok ==> final(dst)@ == old(dst)@ + query_wire(self@),
            r is Err ==> final(dst)@ == old(dst)@,
    {
        let mut out: Vec<u8> = Vec::new();
        self.header.encode(&mut out);
        match self.question.encode(&mut out) {
            Ok(()) => {},
            Err(e) => return Err(e),
        }
        dst.append(&mut out);
        assert(dst@ =~= old(dst)@ + query_wire(self@));
        Ok(())
    }
}

/// A query with one question whose labels have 1 to 63 octets decodes from
/// its encoding as itself.
pub proof fn lemma_query_round_trip(q: QueryModel, rest: Seq<u8>)
    requires
        q.header.qdcount == 1,
        plain_labels(q.question.name),
    ensures
        spec_query(query_wire(q) + rest, 0) == Ok::<(QueryModel, int), DecodeError>(
            (q, query_wire(q).len() as int),
        ),
{
    let msg = query_wire(q) + rest;
    let tail = question_wire(q.question) + rest;
    assert(msg =~= header_octets(q.header) + tail);
    lemma_header_round_trip(q.header, tail);
    lemma_question_round_trip(header_octets(q.header), q.question, rest);
    assert(header_octets(q.header) + question_wire(q.question) + rest =~= msg);
}

/// `count` consecutive items read by `item` from `pos` on, and the position
/// past the last one.
pub open spec fn repeat<T>(
    item: spec_fn(Seq<u8>, int) -> Result<(T, int), DecodeError>,
    msg: Seq<u8>,
    pos: int,
    count: nat,
) -> Result<(Seq<T>, int), DecodeError>
    decreases count,
{
    if count == 0 {
        Ok((seq![], pos))
    } else {
        match repeat(item, msg, pos, (count - 1) as nat) {
            Ok((items, p)) => match item(msg, p) {
                Ok((x, e)) => Ok((items.push(x), e)),
                Err(x) => Err(x),
            },
            Err(x) => Err(x),
        }
    }
}

/// Once reading a run fails, reading a longer run fails the same way.
pub proof fn lemma_repeat_fails_on<T>(
    item: spec_fn(Seq<u8>, int) -> Result<(T, int), DecodeError>,
    msg: Seq<u8>,
    pos: int,
    k: nat,
    n: nat,
)
    requires
        k <= n,
        repeat(item, msg, pos, k) is Err,
    ensures
        repeat(item, msg, pos, n) == repeat(item, msg, pos, k),
    decreases n,
{
    if k < n {
        lemma_repeat_fails_on(item, msg, pos, k, (n - 1) as nat);
    }
}

pub open spec fn question_item() -> spec_fn(Seq<u8>, int) -> Result<(QuestionModel, int), DecodeError> {
    |msg: Seq<u8>, pos: int| spec_question(msg, pos)
}

pub open spec fn record_item() -> spec_fn(Seq<u8>, int) -> Result<(RecordModel, int), DecodeError> {
    |msg: Seq<u8>, pos: int| spec_record(msg, pos)
}

/// Each question as a value.
pub open spec fn question_views(qs: Seq<Question>) -> Seq<QuestionModel> {
    qs.map_values(|q: Question| q@)
}

/// Each record as a value.
pub open spec fn record_views(rs: Seq<Record>) -> Seq<RecordModel> {
    rs.map_values(|r: Record| r@)
}

/// Decodes `count` questions from `pos` on.
pub fn decode_questions(msg: &[u8], pos: usize, count: u16) -> (r: Result<
    (Vec<Question>, usize),
    DecodeError,
>)
    requires
        pos <= msg@.len(),
    ensures
        match r {
            Ok((qs, e)) => repeat(question_item(), msg@, pos as int, count as nat) == Ok::<
                (Seq<QuestionModel>, int),
                DecodeError,
            >((question_views(qs@), e as int)) && pos <= e <= msg@.len(),
            Err(x) => repeat(question_item(), msg@, pos as int, count as nat) == Err::<
                (Seq<QuestionModel>, int),
                DecodeError,
            >(x),
        },
{
    let mut out: Vec<Question> = Vec::new();
    let mut p = pos;
    let mut i: u16 = 0;
    assert(question_views(out@) =~= Seq::<QuestionModel>::empty());
    while i < count
        invariant
            pos <= p <= msg@.len(),
            i <= count,
            repeat(question_item(), msg@, pos as int, i as nat) == Ok::<
                (Seq<QuestionModel>, int),
                DecodeError,
            >((question_views(out@), p as int)),
        decreases count - i,
    {
        match Question::decode(msg, p) {
            Ok((q, e)) => {
                let ghost before = out@;
                out.push(q);
                assert(question_views(out@) =~= question_views(before).push(q@));
                p = e;
            },
            Err(x) => {
                proof {
                    lemma_repeat_fails_on(question_item(), msg@, pos as int, (i + 1) as nat, count as nat);
                }
                return Err(x);
            },
        }
        i = i + 1;
    }
    Ok((out, p))
}

/// Decodes `count` records from `pos` on.
pub fn decode_records(msg: &[u8], pos: usize, count: u16) -> (r: Result<
    (Vec<Record>, usize),
    DecodeError,
>)
    requires
        pos <= msg@.len(),
    ensures
        match r {
            Ok((rs, e)) => repeat(record_item(), msg@, pos as int, count as nat) == Ok::<
                (Seq<RecordModel>, int),
                DecodeError,
            >((record_views(rs@), e as int)) && pos <= e <= msg@.len(),
            Err(x) => repeat(record_item(), msg@, pos as int, count as nat) == Err::<
                (Seq<RecordModel>, int),
                DecodeError,
            >(x),
        },
{
    let mut out: Vec<Record> = Vec::new();
    let mut p = pos;
    let mut i: u16 = 0;
    assert(record_views(out@) =~= Seq::<RecordModel>::empty());
    while i < count
        invariant
            pos <= p <= msg@.len(),
            i <= count,
            repeat(record_item(), msg@, pos as int, i as nat) == Ok::<
                (Seq<RecordModel>, int),
                DecodeError,
            >((record_views(out@), p as int)),
        decreases count - i,
    {
        match Record::decode(msg, p) {
            Ok((rec, e)) => {
                let ghost before = out@;
                out.push(rec);
                assert(record_views(out@) =~= record_views(before).push(rec@));
                p = e;
            },
            Err(x) => {
                proof {
                    lemma_repeat_fails_on(record_item(), msg@, pos as int, (i + 1) as nat, count as nat);
                }
                return Err(x);
            },
        }
        i = i + 1;
    }
    Ok((out, p))
}

/// A response: a header and its four sections, each as long as its count.
#[derive(Debug, Clone, PartialEq, Eq)]
pub struct Response {
    pub header: Header,
    pub questions: Vec<Question>,
    pub answers: Vec<Record>,
    pub authorities: Vec<Record>,
    pub additionals: Vec<Record>,
}

pub struct ResponseModel {
    pub header: Header,
    pub questions: Seq<QuestionModel>,
    pub answers: Seq<RecordModel>,
    pub authorities: Seq<RecordModel>,
    pub additionals: Seq<RecordModel>,
}

impl View for Response {
    type V = ResponseModel;

    open spec fn view(&self) -> ResponseModel {
        ResponseModel {
            header: self.header,
            questions: question_views(self.questions@),
            answers: record_views(self.answers@),
            authorities: record_views(self.authorities@),
            additionals: record_views(self.additionals@),
        }
    }
}

/// The response at `pos`: a header, then as many questions, answers,
/// authority and additional records as it counts.
pub open spec fn spec_response(msg: Seq<u8>, pos: int) -> Result<(ResponseModel, int), DecodeError> {
    match spec_header(msg, pos) {
        Ok((header, p1)) => match repeat(question_item(), msg, p1, header.qdcount as nat) {
            Ok((questions, p2)) => match repeat(record_item(), msg, p2, header.ancount as nat) {
                Ok((answers, p3)) => match repeat(record_item(), msg, p3, header.ncount as nat) {
                    Ok((authorities, p4)) => match repeat(
                        record_item(),
                        msg,
                        p4,
                        header.arcount as nat,
                    ) {
                        Ok((additionals, p5)) => Ok(
                            (ResponseModel { header, questions, answers, authorities, additionals }, p5),
                        ),
                        Err(e) => Err(e),
                    },
                    Err(e) => Err(e),
                },
                Err(e) => Err(e),
            },
            Err(e) => Err(e),
        },
        Err(e) => Err(e),
    }
}

impl Response {
    /// Reads the response at `pos`, every section eagerly.
    pub fn decode(msg: &[u8], pos: usize) -> (r: Result<(Response, usize), DecodeError>)
        requires
            pos <= msg@.len(),
        ensures
            decoded_as(r, spec_response(msg@, pos as int)),
            r matches Ok((_, e)) ==> pos < e <= msg@.len(),
    {
        let (header, p) = match Header::decode(msg, pos) {
            Ok(v) => v,
            Err(e) => return Err(e),
        };
        let (questions, p) = match decode_questions(msg, p, header.qdcount) {
            Ok(v) => v,
            Err(e) => return Err(e),
        };
        let (answers, p) = match decode_records(msg, p, header.ancount) {
            Ok(v) => v,
            Err(e) => return Err(e),
        };
        let (authorities, p) = match decode_records(msg, p, header.ncount) {
            Ok(v) => v,
            Err(e) => return Err(e),
        };
        let (additionals, p) = match decode_records(msg, p, header.arcount) {
            Ok(v) => v,
            Err(e) => return Err(e),
        };
        Ok((Response { header, questions, answers, authorities, additionals }, p))
    }
}

/// What a framer does with its buffer `b` for a message model `spec`: past
/// the largest datagram it refuses the buffer; on a whole message it takes
/// exactly its bytes; on a prefix it waits, taking nothing; on bytes that
/// cannot be a message it drops the datagram.
pub open spec fn framed<T: View>(
    b: Seq<u8>,
    parsed: Result<(T::V, int), DecodeError>,
    r: Result<Option<T>, Invalid>,
    after: Seq<u8>,
) -> bool {
    if b.len() > MAX_MESSAGE_LEN {
        r == Err::<Option<T>, Invalid>(Invalid::Oversize) && after.len() == 0
    } else {
        match parsed {
            Ok((m, end)) => r matches Ok(Some(v)) && v@ == m && after == b.skip(end),
            Err(DecodeError::NeedMore) => r == Ok::<Option<T>, Invalid>(None) && after == b,
            Err(DecodeError::Invalid(x)) => r == Err::<Option<T>, Invalid>(x) && after.len() == 0,
        }
    }
}

/// Why a message could not be written.
#[derive(Debug, Clone, Copy, PartialEq, Eq, Structural)]
pub enum EncodeError {
    /// A label of a name is longer than 63 octets.
    LabelTooLong,
    /// The buffer would outgrow what memory can address.
    Oversize,
}

/// The framer of queries: decodes from and encodes into a growable buffer.
pub struct QueryCodec;

/// The framer of responses: decodes from a growable buffer.
pub struct ResponseCodec;

impl QueryCodec {
    /// Takes one query off the front of the buffer, as `framed` describes.
    pub fn decode(&mut self, src: &mut BytesMut) -> (r: Result<Option<Query>, Invalid>)
        ensures
            framed(
                buffer_contents(*old(src)),
                spec_query(buffer_contents(*old(src)), 0),
                r,
                buffer_contents(*final(src)),
            ),
    {
        let b = contents(src);
        let n = b.len();
        if n > MAX_MESSAGE_LEN {
            consume(src, n);
            return Err(Invalid::Oversize);
        }
        let result = Query::decode(b, 0);
        match result {
            Ok((q, end)) => {
                consume(src, end);
                Ok(Some(q))
            },
            Err(DecodeError::NeedMore) => Ok(None),
            Err(DecodeError::Invalid(x)) => {
                consume(src, n);
                Err(x)
            },
        }
    }

    /// Appends the query's octets.
    pub fn encode(&mut self, item: Query, dst: &mut BytesMut) -> (r: Result<(), EncodeError>)
        ensures
            r is Ok ==> buffer_contents(*final(dst)) == buffer_contents(*old(dst)) + query_wire(item@),
            r is Err ==> buffer_contents(*final(dst)) == buffer_contents(*old(dst)),
            r == Err::<(), EncodeError>(EncodeError::LabelTooLong) <==> !encodable(item.question.name@),
            r == Err::<(), EncodeError>(EncodeError::Oversize) <==> encodable(item.question.name@)
                && buffer_contents(*old(dst)).len() + query_wire(item@).len() > isize::MAX,
    {
        let mut out: Vec<u8> = Vec::new();
        match item.encode(&mut out) {
            Ok(()) => {},
            Err(_) => return Err(EncodeError::LabelTooLong),
        }
        let held = contents(dst).len();
        if held > isize::MAX as usize || out.len() > isize::MAX as usize - held {
            return Err(EncodeError::Oversize);
        }
        append(dst, out.as_slice());
        assert(out@ =~= query_wire(item@));
        Ok(())
    }
}

impl ResponseCodec {
    /// Takes one response off the front of the buffer, as `framed` describes.
    pub fn decode(&mut self, src: &mut BytesMut) -> (r: Result<Option<Response>, Invalid>)
        ensures
            framed(
                buffer_contents(*old(src)),
                spec_response(buffer_contents(*old(src)), 0),
                r,
                buffer_contents(*final(src)),
            ),
    {
        let b = contents(src);
        let n = b.len();
        if n > MAX_MESSAGE_LEN {
            consume(src, n);
            return Err(Invalid::Oversize);
        }
        let result = Response::decode(b, 0);
        match result {
            Ok((resp, end)) => {
                consume(src, end);
                Ok(Some(resp))
            },
            Err(DecodeError::NeedMore) => Ok(None),
            Err(DecodeError::Invalid(x)) => {
                consume(src, n);
                Err(x)
            },
        }
    }
}

/// Every strict prefix of an encoded query, one whose question has labels of
/// 1 to 63 octets, reads as a query that needs more octets.
pub proof fn lemma_query_prefix_needs_more(q: QueryModel, k: nat)
    requires
        q.header.qdcount == 1,
        plain_labels(q.question.name),
        k < query_wire(q).len(),
    ensures
        spec_query(query_wire(q).take(k as int), 0) == Err::<(QueryModel, int), DecodeError>(
            DecodeError::NeedMore,
        ),
{
    let w = query_wire(q);
    let m = w.take(k as int);
    let h = header_octets(q.header);
    if k >= 12 {
        lemma_header_round_trip(q.header, question_wire(q.question));
        assert forall|j: int| 0 <= j < 12 implies m[j] == w[j] by {}
        assert(spec_header(m, 0) == spec_header(w, 0));
        let labels = name_labels(q.question.name);
        let nw = labels_wire(labels);
        let tail = u16_octets(q.question.kind.spec_code()) + u16_octets(q.question.class.spec_code());
        assert(w =~= h + nw + seq![0u8] + tail);
        let name_end = (12 + nw.len() + 1) as int;
        if k < name_end {
            assert(m =~= (h + nw + seq![0u8]).take(k as int));
            lemma_labels_wire_cut(h, labels, k, 0);
        } else {
            let rest = tail.take(k as int - name_end);
            assert(m =~= h + nw + seq![0u8] + rest);
            lemma_parse_labels_wire(h, labels, rest, 0);
            lemma_join_name_labels(q.question.name);
            lemma_qtype_code_round_trip(q.question.kind);
            if k >= name_end + 2 {
                assert(m[name_end] == w[name_end]);
                assert(m[name_end + 1] == w[name_end + 1]);
            }
        }
    }
}

} // verus!
