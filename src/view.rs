//! The lazy response: one structural skim records where each section
//! starts, without decoding names; sections are decoded on demand.
use vstd::prelude::*;

use bytes::BytesMut;

use crate::buffer::{buffer_contents, consume, contents};
use crate::error::{DecodeError, Invalid};
use crate::header::{spec_header, Header};
use crate::message::{
    decode_questions, decode_records, question_item, question_views, record_item, record_views,
    repeat, spec_response, Response, ResponseCodec,
};
use crate::name::parse_labels;
use crate::question::{spec_question, Question};
use crate::record::{spec_record, Record};
use crate::wire::{be16, read_u16, MAX_MESSAGE_LEN};

verus! {

/// The position past the name at `pos`, found from its inline octets alone:
/// a pointer ends a name and is two octets long, so none is followed.
pub open spec fn spec_skip_name(msg: Seq<u8>, pos: nat) -> Result<int, DecodeError>
    decreases (if pos <= msg.len() {
        msg.len() - pos
    } else {
        0
    }) as nat,
{
    if pos >= msg.len() {
        Err(DecodeError::NeedMore)
    } else {
        let b = msg[pos as int];
        if b == 0 {
            Ok(pos + 1 as int)
        } else if b < 64 {
            if pos + 1 + b > msg.len() {
                Err(DecodeError::NeedMore)
            } else {
                spec_skip_name(msg, (pos + 1 + b) as nat)
            }
        } else if b >= 192 {
            if pos + 2 > msg.len() {
                Err(DecodeError::NeedMore)
            } else {
                Ok(pos + 2 as int)
            }
        } else {
            Err(DecodeError::Invalid(Invalid::ReservedLabelForm))
        }
    }
}

/// The position past the question at `pos`: its name, then four octets.
pub open spec fn spec_skip_question(msg: Seq<u8>, pos: int) -> Result<int, DecodeError> {
    match spec_skip_name(msg, pos as nat) {
        Ok(p) => if p + 4 > msg.len() {
            Err(DecodeError::NeedMore)
        } else {
            Ok(p + 4)
        },
        Err(e) => Err(e),
    }
}

/// The position past the record at `pos`: its name, ten fixed octets, then as
/// many octets of RDATA as the last two of them declare.
pub open spec fn spec_skip_record(msg: Seq<u8>, pos: int) -> Result<int, DecodeError> {
    match spec_skip_name(msg, pos as nat) {
        Ok(p) => if p + 10 > msg.len() {
            Err(DecodeError::NeedMore)
        } else {
            let len = be16(msg[p + 8], msg[p + 9]);
            if p + 10 + len > msg.len() {
                Err(DecodeError::NeedMore)
            } else {
                Ok(p + 10 + len)
            }
        },
        Err(e) => Err(e),
    }
}

/// The position past `count` items skipped by `skip` from `pos` on.
pub open spec fn skip_many(
    skip: spec_fn(Seq<u8>, int) -> Result<int, DecodeError>,
    msg: Seq<u8>,
    pos: int,
    count: nat,
) -> Result<int, DecodeError>
    decreases count,
{
    if count == 0 {
        Ok(pos)
    } else {
        match skip_many(skip, msg, pos, (count - 1) as nat) {
            Ok(p) => skip(msg, p),
            Err(e) => Err(e),
        }
    }
}

pub open spec fn question_skip() -> spec_fn(Seq<u8>, int) -> Result<int, DecodeError> {
    |msg: Seq<u8>, pos: int| spec_skip_question(msg, pos)
}

pub open spec fn record_skip() -> spec_fn(Seq<u8>, int) -> Result<int, DecodeError> {
    |msg: Seq<u8>, pos: int| spec_skip_record(msg, pos)
}

/// Where each section of a response starts, and where the response ends.
pub struct Skim {
    pub header: Header,
    pub answers_at: int,
    pub authorities_at: int,
    pub additionals_at: int,
    pub end: int,
}

/// The skim of the response at the start of `msg`; questions start right
/// after the header.
pub open spec fn spec_skim(msg: Seq<u8>) -> Result<Skim, DecodeError> {
    match spec_header(msg, 0) {
        Ok((header, p1)) => match skip_many(question_skip(), msg, p1, header.qdcount as nat) {
            Ok(p2) => match skip_many(record_skip(), msg, p2, header.ancount as nat) {
                Ok(p3) => match skip_many(record_skip(), msg, p3, header.ncount as nat) {
                    Ok(p4) => match skip_many(record_skip(), msg, p4, header.arcount as nat) {
                        Ok(p5) => Ok(
                            Skim {
                                header,
                                answers_at: p2,
                                authorities_at: p3,
                                additionals_at: p4,
                                end: p5,
                            },
                        ),
                        Err(e) => Err(e),
                    },
                    Err(e) => Err(e),
                },
                Err(e) => Err(e),
            },
            Err(e) => Err(e),
        },
        Err(e) => Err(e),
    }
}

fn skip_name(msg: &[u8], pos: usize) -> (r: Result<usize, DecodeError>)
    requires
        pos <= msg@.len(),
    ensures
        match r {
            Ok(e) => spec_skip_name(msg@, pos as nat) == Ok::<int, DecodeError>(e as int) && pos < e
                <= msg@.len(),
            Err(x) => spec_skip_name(msg@, pos as nat) == Err::<int, DecodeError>(x),
        },
{
    let mut p = pos;
    loop
        invariant
            pos <= p <= msg@.len(),
            spec_skip_name(msg@, pos as nat) == spec_skip_name(msg@, p as nat),
        decreases msg@.len() - p,
    {
        if p >= msg.len() {
            return Err(DecodeError::NeedMore);
        }
        let b = msg[p];
        if b == 0 {
            return Ok(p + 1);
        } else if b < 64 {
            if msg.len() - p - 1 < b as usize {
                return Err(DecodeError::NeedMore);
            }
            p = p + 1 + b as usize;
        } else if b >= 192 {
            if msg.len() - p < 2 {
                return Err(DecodeError::NeedMore);
            }
            return Ok(p + 2);
        } else {
            return Err(DecodeError::Invalid(Invalid::ReservedLabelForm));
        }
    }
}

fn skip_question(msg: &[u8], pos: usize) -> (r: Result<usize, DecodeError>)
    requires
        pos <= msg@.len(),
    ensures
        match r {
            Ok(e) => spec_skip_question(msg@, pos as int) == Ok::<int, DecodeError>(e as int) && pos
                < e <= msg@.len(),
            Err(x) => spec_skip_question(msg@, pos as int) == Err::<int, DecodeError>(x),
        },
{
    let p = match skip_name(msg, pos) {
        Ok(p) => p,
        Err(e) => return Err(e),
    };
    if msg.len() - p < 4 {
        return Err(DecodeError::NeedMore);
    }
    Ok(p + 4)
}

fn skip_record(msg: &[u8], pos: usize) -> (r: Result<usize, DecodeError>)
    requires
        pos <= msg@.len(),
    ensures
        match r {
            Ok(e) => spec_skip_record(msg@, pos as int) == Ok::<int, DecodeError>(e as int) && pos
                < e <= msg@.len(),
            Err(x) => spec_skip_record(msg@, pos as int) == Err::<int, DecodeError>(x),
        },
{
    let p = match skip_name(msg, pos) {
        Ok(p) => p,
        Err(e) => return Err(e),
    };
    if msg.len() - p < 10 {
        return Err(DecodeError::NeedMore);
    }
    let (len, q) = match read_u16(msg, p + 8) {
        Ok(v) => v,
        Err(e) => return Err(e),
    };
    if msg.len() - q < len as usize {
        return Err(DecodeError::NeedMore);
    }
    Ok(q + len as usize)
}

/// Skips `count` questions (`records` false) or records (`records` true).
fn skip_section(msg: &[u8], pos: usize, count: u16, records: bool) -> (r: Result<usize, DecodeError>)
    requires
        pos <= msg@.len(),
    ensures
        ({
            let s = if records {
                skip_many(record_skip(), msg@, pos as int, count as nat)
            } else {
                skip_many(question_skip(), msg@, pos as int, count as nat)
            };
            match r {
                Ok(e) => s == Ok::<int, DecodeError>(e as int) && pos <= e <= msg@.len(),
                Err(x) => s == Err::<int, DecodeError>(x),
            }
        }),
{
    let ghost skip = if records {
        record_skip()
    } else {
        question_skip()
    };
    let mut p = pos;
    let mut i: u16 = 0;
    while i < count
        invariant
            pos <= p <= msg@.len(),
            i <= count,
            skip == (if records {
                record_skip()
            } else {
                question_skip()
            }),
            skip_many(skip, msg@, pos as int, i as nat) == Ok::<int, DecodeError>(p as int),
        decreases count - i,
    {
        let step = if records {
            skip_record(msg, p)
        } else {
            skip_question(msg, p)
        };
        match step {
            Ok(e) => {
                p = e;
            },
            Err(x) => {
                proof {
                    lemma_skip_many_fails_on(skip, msg@, pos as int, (i + 1) as nat, count as nat);
                }
                return Err(x);
            },
        }
        i = i + 1;
    }
    Ok(p)
}

proof fn lemma_skip_many_fails_on(
    skip: spec_fn(Seq<u8>, int) -> Result<int, DecodeError>,
    msg: Seq<u8>,
    pos: int,
    k: nat,
    n: nat,
)
    requires
        k <= n,
        skip_many(skip, msg, pos, k) is Err,
    ensures
        skip_many(skip, msg, pos, n) == skip_many(skip, msg, pos, k),
    decreases n,
{
    if k < n {
        lemma_skip_many_fails_on(skip, msg, pos, k, (n - 1) as nat);
    }
}

proof fn lemma_skip_name_agrees(msg: Seq<u8>, pos: nat, jumps: nat)
    requires
        parse_labels(msg, pos, jumps) is Ok,
    ensures
        spec_skip_name(msg, pos) == Ok::<int, DecodeError>(
            (parse_labels(msg, pos, jumps)->Ok_0).1 as int,
        ),
    decreases (if pos <= msg.len() {
        msg.len() - pos
    } else {
        0
    }) as nat,
{
    let b = msg[pos as int];
    if b != 0 && b < 64 {
        lemma_skip_name_agrees(msg, (pos + 1 + b) as nat, jumps);
    }
}

proof fn lemma_skip_question_agrees(msg: Seq<u8>, pos: int)
    requires
        spec_question(msg, pos) is Ok,
    ensures
        spec_skip_question(msg, pos) == Ok::<int, DecodeError>((spec_question(msg, pos)->Ok_0).1),
{
    lemma_skip_name_agrees(msg, pos as nat, 0);
}

proof fn lemma_skip_record_agrees(msg: Seq<u8>, pos: int)
    requires
        spec_record(msg, pos) is Ok,
    ensures
        spec_skip_record(msg, pos) == Ok::<int, DecodeError>((spec_record(msg, pos)->Ok_0).1),
{
    lemma_skip_name_agrees(msg, pos as nat, 0);
}

proof fn lemma_skip_many_agrees<T>(
    item: spec_fn(Seq<u8>, int) -> Result<(T, int), DecodeError>,
    skip: spec_fn(Seq<u8>, int) -> Result<int, DecodeError>,
    msg: Seq<u8>,
    pos: int,
    count: nat,
)
    requires
        forall|p: int|
            (#[trigger] item(msg, p)) is Ok ==> skip(msg, p) == Ok::<int, DecodeError>(
                (item(msg, p)->Ok_0).1,
            ),
        repeat(item, msg, pos, count) is Ok,
    ensures
        skip_many(skip, msg, pos, count) == Ok::<int, DecodeError>(
            (repeat(item, msg, pos, count)->Ok_0).1,
        ),
    decreases count,
{
    if count > 0 {
        lemma_skip_many_agrees(item, skip, msg, pos, (count - 1) as nat);
    }
}

/// The skim and the eager decoder agree: where the skim succeeds, each
/// section that decodes ends where the skim says the next one starts.
pub proof fn lemma_skim_agrees(msg: Seq<u8>)
    requires
        spec_skim(msg) is Ok,
    ensures
        ({
            let s = spec_skim(msg)->Ok_0;
            &&& spec_header(msg, 0) == Ok::<(Header, int), DecodeError>((s.header, 12))
            &&& repeat(question_item(), msg, 12, s.header.qdcount as nat) is Ok ==> (repeat(
                question_item(),
                msg,
                12,
                s.header.qdcount as nat,
            )->Ok_0).1 == s.answers_at
            &&& repeat(record_item(), msg, s.answers_at, s.header.ancount as nat) is Ok ==> (
            repeat(record_item(), msg, s.answers_at, s.header.ancount as nat)->Ok_0).1
                == s.authorities_at
            &&& repeat(record_item(), msg, s.authorities_at, s.header.ncount as nat) is Ok ==> (
            repeat(record_item(), msg, s.authorities_at, s.header.ncount as nat)->Ok_0).1
                == s.additionals_at
            &&& repeat(record_item(), msg, s.additionals_at, s.header.arcount as nat) is Ok ==> (
            repeat(record_item(), msg, s.additionals_at, s.header.arcount as nat)->Ok_0).1
                == s.end
        }),
{
    let s = spec_skim(msg)->Ok_0;
    assert forall|p: int| (#[trigger] question_item()(msg, p)) is Ok implies question_skip()(
        msg,
        p,
    ) == Ok::<int, DecodeError>((question_item()(msg, p)->Ok_0).1) by {
        lemma_skip_question_agrees(msg, p);
    }
    assert forall|p: int| (#[trigger] record_item()(msg, p)) is Ok implies record_skip()(
        msg,
        p,
    ) == Ok::<int, DecodeError>((record_item()(msg, p)->Ok_0).1) by {
        lemma_skip_record_agrees(msg, p);
    }
    if repeat(question_item(), msg, 12, s.header.qdcount as nat) is Ok {
        lemma_skip_many_agrees(question_item(), question_skip(), msg, 12, s.header.qdcount as nat);
    }
    if repeat(record_item(), msg, s.answers_at, s.header.ancount as nat) is Ok {
        lemma_skip_many_agrees(record_item(), record_skip(), msg, s.answers_at, s.header.ancount as nat);
    }
    if repeat(record_item(), msg, s.authorities_at, s.header.ncount as nat) is Ok {
        lemma_skip_many_agrees(record_item(), record_skip(), msg, s.authorities_at, s.header.ncount as nat);
    }
    if repeat(record_item(), msg, s.additionals_at, s.header.arcount as nat) is Ok {
        lemma_skip_many_agrees(record_item(), record_skip(), msg, s.additionals_at, s.header.arcount as nat);
    }
}

/// A response held whole, with the offsets of its sections.
pub struct ResponseView {
    buffer: Vec<u8>,
    header: Header,
    answers_at: usize,
    authorities_at: usize,
    additionals_at: usize,
    end: usize,
}

impl ResponseView {
    /// The bytes held.
    pub closed spec fn bytes(&self) -> Seq<u8> {
        self.buffer@
    }

    /// The offsets recorded by the skim.
    pub closed spec fn skim(&self) -> Skim {
        Skim {
            header: self.header,
            answers_at: self.answers_at as int,
            authorities_at: self.authorities_at as int,
            additionals_at: self.additionals_at as int,
            end: self.end as int,
        }
    }

    /// The offsets are the skim of the bytes held.
    pub closed spec fn wf(&self) -> bool {
        &&& spec_skim(self.buffer@) == Ok::<Skim, DecodeError>(self.skim())
        &&& 12 <= self.answers_at <= self.authorities_at <= self.additionals_at <= self.end
            <= self.buffer@.len()
    }

    /// Skims the response at the start of `buffer` and keeps the buffer.
    pub fn parse(buffer: Vec<u8>) -> (r: Result<ResponseView, DecodeError>)
        ensures
            match spec_skim(buffer@) {
                Ok(s) => r matches Ok(v) && v.wf() && v.bytes() == buffer@ && v.skim() == s,
                Err(e) => r matches Err(x) && x == e,
            },
    {
        let msg = buffer.as_slice();
        let (header, p1) = match Header::decode(msg, 0) {
            Ok(v) => v,
            Err(e) => return Err(e),
        };
        let p2 = match skip_section(msg, p1, header.qdcount, false) {
            Ok(p) => p,
            Err(e) => return Err(e),
        };
        let p3 = match skip_section(msg, p2, header.ancount, true) {
            Ok(p) => p,
            Err(e) => return Err(e),
        };
        let p4 = match skip_section(msg, p3, header.ncount, true) {
            Ok(p) => p,
            Err(e) => return Err(e),
        };
        let p5 = match skip_section(msg, p4, header.arcount, true) {
            Ok(p) => p,
            Err(e) => return Err(e),
        };
        Ok(
            ResponseView {
                buffer,
                header,
                answers_at: p2,
                authorities_at: p3,
                additionals_at: p4,
                end: p5,
            },
        )
    }

    /// The header read by the skim.
    pub fn header(&self) -> (r: Header)
        ensures
            r == self.skim().header,
    {
        self.header
    }

    /// The length of the response in octets.
    pub fn len(&self) -> (r: usize)
        ensures
            r == self.skim().end,
    {
        self.end
    }

    /// Decodes the question section.
    pub fn questions(&self) -> (r: Result<Vec<Question>, DecodeError>)
        requires
            self.wf(),
        ensures
            match repeat(question_item(), self.bytes(), 12, self.skim().header.qdcount as nat) {
                Ok((qs, _)) => r matches Ok(v) && question_views(v@) == qs,
                Err(e) => r == Err::<Vec<Question>, DecodeError>(e),
            },
    {
        match decode_questions(self.buffer.as_slice(), 12, self.header.qdcount) {
            Ok((qs, _)) => Ok(qs),
            Err(e) => Err(e),
        }
    }

    /// Decodes the answer section.
    pub fn answers(&self) -> (r: Result<Vec<Record>, DecodeError>)
        requires
            self.wf(),
        ensures
            records_at(r, self.bytes(), self.skim().answers_at, self.skim().header.ancount),
    {
        self.section(self.answers_at, self.header.ancount)
    }

    /// Decodes the authority section.
    pub fn authorities(&self) -> (r: Result<Vec<Record>, DecodeError>)
        requires
            self.wf(),
        ensures
            records_at(r, self.bytes(), self.skim().authorities_at, self.skim().header.ncount),
    {
        self.section(self.authorities_at, self.header.ncount)
    }

    /// Decodes the additional section.
    pub fn additionals(&self) -> (r: Result<Vec<Record>, DecodeError>)
        requires
            self.wf(),
        ensures
            records_at(r, self.bytes(), self.skim().additionals_at, self.skim().header.arcount),
    {
        self.section(self.additionals_at, self.header.arcount)
    }

    fn section(&self, at: usize, count: u16) -> (r: Result<Vec<Record>, DecodeError>)
        requires
            at <= self.buffer@.len(),
        ensures
            records_at(r, self.bytes(), at as int, count),
    {
        match decode_records(self.buffer.as_slice(), at, count) {
            Ok((rs, _)) => Ok(rs),
            Err(e) => Err(e),
        }
    }

    /// Decodes every section into an owned response.
    pub fn to_response(&self) -> (r: Result<Response, DecodeError>)
        requires
            self.wf(),
        ensures
            match spec_response(self.bytes(), 0) {
                Ok((m, _)) => r matches Ok(resp) && resp@ == m,
                Err(e) => r is Err,
            },
    {
        proof {
            lemma_skim_agrees(self.bytes());
        }
        let questions = match self.questions() {
            Ok(v) => v,
            Err(e) => return Err(e),
        };
        let answers = match self.answers() {
            Ok(v) => v,
            Err(e) => return Err(e),
        };
        let authorities = match self.authorities() {
            Ok(v) => v,
            Err(e) => return Err(e),
        };
        let additionals = match self.additionals() {
            Ok(v) => v,
            Err(e) => return Err(e),
        };
        Ok(Response { header: self.header, questions, answers, authorities, additionals })
    }
}

/// The records of a section in the model: `count` of them from `at` on.
pub open spec fn records_at(
    r: Result<Vec<Record>, DecodeError>,
    msg: Seq<u8>,
    at: int,
    count: u16,
) -> bool {
    match repeat(record_item(), msg, at, count as nat) {
        Ok((rs, _)) => r matches Ok(v) && record_views(v@) == rs,
        Err(e) => r == Err::<Vec<Record>, DecodeError>(e),
    }
}

/// Where the eager decoder reads a whole response, the skim succeeds and ends
/// at the same place.
pub proof fn lemma_eager_implies_skim(msg: Seq<u8>)
    requires
        spec_response(msg, 0) is Ok,
    ensures
        spec_skim(msg) is Ok,
        (spec_skim(msg)->Ok_0).end == (spec_response(msg, 0)->Ok_0).1,
{
    assert forall|p: int| (#[trigger] question_item()(msg, p)) is Ok implies question_skip()(
        msg,
        p,
    ) == Ok::<int, DecodeError>((question_item()(msg, p)->Ok_0).1) by {
        lemma_skip_question_agrees(msg, p);
    }
    assert forall|p: int| (#[trigger] record_item()(msg, p)) is Ok implies record_skip()(
        msg,
        p,
    ) == Ok::<int, DecodeError>((record_item()(msg, p)->Ok_0).1) by {
        lemma_skip_record_agrees(msg, p);
    }
    let (h, p1) = spec_header(msg, 0)->Ok_0;
    lemma_skip_many_agrees(question_item(), question_skip(), msg, p1, h.qdcount as nat);
    let p2 = (repeat(question_item(), msg, p1, h.qdcount as nat)->Ok_0).1;
    lemma_skip_many_agrees(record_item(), record_skip(), msg, p2, h.ancount as nat);
    let p3 = (repeat(record_item(), msg, p2, h.ancount as nat)->Ok_0).1;
    lemma_skip_many_agrees(record_item(), record_skip(), msg, p3, h.ncount as nat);
    let p4 = (repeat(record_item(), msg, p3, h.ncount as nat)->Ok_0).1;
    lemma_skip_many_agrees(record_item(), record_skip(), msg, p4, h.arcount as nat);
}

/// A copy of the bytes.
fn copy_bytes(b: &[u8]) -> (r: Vec<u8>)
    ensures
        r@ == b@,
{
    let mut out: Vec<u8> = Vec::new();
    let mut i: usize = 0;
    while i < b.len()
        invariant
            i <= b@.len(),
            out@ == b@.take(i as int),
        decreases b@.len() - i,
    {
        out.push(b[i]);
        i = i + 1;
        assert(out@ =~= b@.take(i as int));
    }
    assert(b@.take(i as int) =~= b@);
    out
}

impl ResponseCodec {
    /// Frames a response as a lazy view: on a whole response the view keeps
    /// a copy of the buffer and exactly the response's bytes are taken from
    /// it; otherwise as `decode`.
    pub fn decode_view(&mut self, src: &mut BytesMut) -> (r: Result<Option<ResponseView>, Invalid>)
        ensures
            ({
                let b = buffer_contents(*old(src));
                let after = buffer_contents(*final(src));
                if b.len() > MAX_MESSAGE_LEN {
                    r == Err::<Option<ResponseView>, Invalid>(Invalid::Oversize) && after.len() == 0
                } else {
                    match spec_skim(b) {
                        Ok(s) => r matches Ok(Some(v)) && v.wf() && v.bytes() == b && v.skim() == s
                            && after == b.skip(s.end),
                        Err(DecodeError::NeedMore) => r == Ok::<Option<ResponseView>, Invalid>(None)
                            && after == b,
                        Err(DecodeError::Invalid(x)) => r == Err::<Option<ResponseView>, Invalid>(x)
                            && after.len() == 0,
                    }
                }
            }),
    {
        let b = contents(src);
        let n = b.len();
        if n > MAX_MESSAGE_LEN {
            consume(src, n);
            return Err(Invalid::Oversize);
        }
        let copy = copy_bytes(b);
        match ResponseView::parse(copy) {
            Ok(v) => {
                let end = v.len();
                consume(src, end);
                Ok(Some(v))
            },
            Err(DecodeError::NeedMore) => Ok(None),
            Err(DecodeError::Invalid(x)) => {
                consume(src, n);
                Err(x)
            },
        }
    }
}

} // verus!
