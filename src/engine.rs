//! The sans-I/O resolver engine: a queue of outbound queries, a table of the
//! transactions in flight, and the classification of their responses. It
//! performs no I/O; the caller moves bytes and feeds decoded responses back.
use vstd::prelude::*;

use std::collections::{HashMap, VecDeque};

use crate::codes::{QClass, QType, Type};
use crate::header::{Flags, Header};
use crate::message::{record_views, Query, QueryModel, Response as Message, ResponseModel};
use crate::name::Name;
use crate::question::{Question, QuestionModel};
use crate::record::{Record, RecordModel};

verus! {

broadcast use vstd::std_specs::hash::group_hash_axioms;

/// An IP address, octets in network order.
#[derive(Debug, Clone, Copy, PartialEq, Eq)]
pub enum IpAddress {
    V4([u8; 4]),
    V6([u8; 16]),
}

/// A transport endpoint: an address and a port.
#[derive(Debug, Clone, Copy, PartialEq, Eq)]
pub struct Endpoint {
    pub ip: IpAddress,
    pub port: u16,
}

/// What a response tells about the name asked for.
#[derive(Debug, Clone, PartialEq, Eq)]
pub enum Outcome {
    /// Answers of the type asked for.
    Resolved(Vec<Record>),
    /// Addresses of name servers (A or AAAA glue among the additionals).
    NamespaceIp(Vec<Record>),
    /// Names of name servers (NS records among the authorities).
    NamespaceNames(Vec<Record>),
    /// Nothing to act on.
    Unresolved,
}

pub enum OutcomeModel {
    Resolved(Seq<RecordModel>),
    NamespaceIp(Seq<RecordModel>),
    NamespaceNames(Seq<RecordModel>),
    Unresolved,
}

impl View for Outcome {
    type V = OutcomeModel;

    open spec fn view(&self) -> OutcomeModel {
        match self {
            Outcome::Resolved(v) => OutcomeModel::Resolved(record_views(v@)),
            Outcome::NamespaceIp(v) => OutcomeModel::NamespaceIp(record_views(v@)),
            Outcome::NamespaceNames(v) => OutcomeModel::NamespaceNames(record_views(v@)),
            Outcome::Unresolved => OutcomeModel::Unresolved,
        }
    }
}

/// A query to send to `target`.
#[derive(Debug)]
pub struct Transmit {
    pub target: Endpoint,
    pub query: Query,
}

/// A classified response: where it came from, where its query went, and
/// what it says.
#[derive(Debug)]
pub struct Response {
    pub source: Endpoint,
    pub target: Endpoint,
    pub outcome: Outcome,
}

/// A response whose id no transaction in flight has.
#[derive(Debug, Clone, Copy, PartialEq, Eq, Structural)]
pub struct UnknownId(pub u16);

struct Enqueued {
    target: Endpoint,
    query: Query,
}

/// The engine's state: queries waiting to be sent, in order, and for each id
/// sent, its target and the type asked for.
pub struct DnsSansIo {
    enqueued: VecDeque<Enqueued>,
    transmitted: HashMap<u16, (Endpoint, QType)>,
}

pub struct EngineModel {
    pub pending: Seq<(Endpoint, QueryModel)>,
    pub transmitted: Map<u16, (Endpoint, QType)>,
}

spec fn pending_view(q: Seq<Enqueued>) -> Seq<(Endpoint, QueryModel)> {
    q.map_values(|e: Enqueued| (e.target, e.query@))
}

impl View for DnsSansIo {
    type V = EngineModel;

    closed spec fn view(&self) -> EngineModel {
        EngineModel { pending: pending_view(self.enqueued@), transmitted: self.transmitted@ }
    }
}

/// The query that `enqueue_query` builds: flags clear, one question of class IN.
pub open spec fn query_for(id: u16, kind: QType, name: Seq<u8>) -> QueryModel {
    QueryModel {
        header: Header { id, flags: Flags(0), qdcount: 1, ancount: 0, ncount: 0, arcount: 0 },
        question: QuestionModel { name, kind, class: QClass::IN },
    }
}

/// The state after enqueuing `query` for `target`.
pub open spec fn after_enqueue(s: EngineModel, target: Endpoint, query: QueryModel) -> EngineModel {
    EngineModel { pending: s.pending.push((target, query)), transmitted: s.transmitted }
}

/// The state after polling, and what the poll hands out.
pub open spec fn after_poll(s: EngineModel) -> (EngineModel, Option<(Endpoint, QueryModel)>) {
    if s.pending.len() == 0 {
        (s, None)
    } else {
        let (target, query) = s.pending[0];
        (
            EngineModel {
                pending: s.pending.skip(1),
                transmitted: s.transmitted.insert(
                    query.header.id,
                    (target, query.question.kind),
                ),
            },
            Some((target, query)),
        )
    }
}

/// Whether a record's TYPE has code `a` or code `b`.
pub open spec fn kind_in(a: u16, b: u16) -> spec_fn(RecordModel) -> bool {
    |r: RecordModel| r.kind.spec_code() == a || r.kind.spec_code() == b
}

/// Classification, first match wins: answers of the type asked for; else A
/// or AAAA glue among the additionals; else NS records among the
/// authorities; else nothing.
pub open spec fn classify(resp: ResponseModel, interest: QType) -> OutcomeModel {
    let resolved = resp.answers.filter(kind_in(interest.spec_code(), interest.spec_code()));
    let glue = resp.additionals.filter(kind_in(Type::A.spec_code(), Type::AAAA.spec_code()));
    let names = resp.authorities.filter(kind_in(Type::NS.spec_code(), Type::NS.spec_code()));
    if resolved.len() > 0 {
        OutcomeModel::Resolved(resolved)
    } else if glue.len() > 0 {
        OutcomeModel::NamespaceIp(glue)
    } else if names.len() > 0 {
        OutcomeModel::NamespaceNames(names)
    } else {
        OutcomeModel::Unresolved
    }
}

/// The records whose TYPE has code `a` or `b`, in their order.
fn keep_kinds(records: Vec<Record>, a: u16, b: u16) -> (r: Vec<Record>)
    ensures
        record_views(r@) == record_views(records@).filter(kind_in(a, b)),
{
    let ghost all = record_views(records@);
    let mut rest = records;
    let mut out: Vec<Record> = Vec::new();
    let ghost mut i: int = 0;
    proof {
        reveal(Seq::filter);
        assert(all.take(0) =~= Seq::<RecordModel>::empty());
        assert(record_views(out@) =~= all.take(0).filter(kind_in(a, b)));
        assert(record_views(rest@) =~= all.skip(0));
    }
    while rest.len() > 0
        invariant
            0 <= i <= all.len(),
            record_views(rest@) == all.skip(i),
            record_views(out@) == all.take(i).filter(kind_in(a, b)),
        decreases rest@.len(),
    {
        let ghost before_rest = rest@;
        let ghost before_out = out@;
        proof {
            assert(record_views(before_rest).len() == before_rest.len());
            assert(all.skip(i).len() == all.len() - i);
            assert(i < all.len());
            assert(all.skip(i)[0] == all[i]);
        }
        let r = rest.remove(0);
        proof {
            assert(r == before_rest[0]);
            assert(r@ == record_views(before_rest)[0]);
            assert(all[i] == r@);
            assert(rest@ =~= before_rest.subrange(1, before_rest.len() as int));
            assert(record_views(rest@) =~= record_views(before_rest).skip(1));
            assert(all.skip(i).skip(1) =~= all.skip(i + 1));
            assert(record_views(rest@) =~= all.skip(i + 1));
            assert(all.take(i + 1).drop_last() =~= all.take(i));
            assert(all.take(i + 1).last() == all[i]);
            reveal(Seq::filter);
        }
        if r.kind.code() == a || r.kind.code() == b {
            out.push(r);
            assert(record_views(out@) =~= record_views(before_out).push(r@));
        }
        proof {
            i = i + 1;
        }
    }
    assert(all.take(i) =~= all);
    out
}

/// Classifies a response to a query that asked for `interest`.
pub fn classify_response(response: Message, interest: QType) -> (r: Outcome)
    ensures
        r@ == classify(response@, interest),
{
    let code = interest.code();
    let resolved = keep_kinds(response.answers, code, code);
    if resolved.len() > 0 {
        return Outcome::Resolved(resolved);
    }
    let glue = keep_kinds(response.additionals, Type::A.code(), Type::AAAA.code());
    if glue.len() > 0 {
        return Outcome::NamespaceIp(glue);
    }
    let names = keep_kinds(response.authorities, Type::NS.code(), Type::NS.code());
    if names.len() > 0 {
        return Outcome::NamespaceNames(names);
    }
    Outcome::Unresolved
}

impl DnsSansIo {
    /// An engine with nothing queued and no transaction in flight.
    pub fn new() -> (r: DnsSansIo)
        ensures
            r@.pending.len() == 0,
            r@.transmitted == Map::<u16, (Endpoint, QType)>::empty(),
    {
        DnsSansIo { enqueued: VecDeque::new(), transmitted: HashMap::new() }
    }

    /// Builds a query for `resource` (ASCII bytes) of type `type_` and appends
    /// it to the queue for `nameserver`. Ids are not checked for reuse.
    pub fn enqueue_query(&mut self, nameserver: Endpoint, id: u16, type_: QType, resource: Vec<u8>)
        requires
            forall|i: int| 0 <= i < resource@.len() ==> #[trigger] resource@[i] < 128,
        ensures
            final(self)@ == after_enqueue(old(self)@, nameserver, query_for(id, type_, resource@)),
    {
        let ghost bytes = resource@;
        let name = match Name::new(resource) {
            Ok(n) => n,
            Err(_) => {
                assert(false);
                return;
            },
        };
        let query = Query {
            header: Header {
                id,
                flags: Flags(0),
                qdcount: 1,
                ancount: 0,
                ncount: 0,
                arcount: 0,
            },
            question: Question { name, kind: type_, class: QClass::IN },
        };
        let ghost before = self.enqueued@;
        self.enqueued.push_back(Enqueued { target: nameserver, query });
        assert(pending_view(self.enqueued@) =~= pending_view(before).push(
            (nameserver, query_for(id, type_, bytes)),
        ));
    }

    /// Takes the oldest waiting query, records its transaction (a later one
    /// with the same id replaces an earlier one), and hands it out.
    pub fn poll_query(&mut self) -> (r: Option<Transmit>)
        ensures
            ({
                let (next, out) = after_poll(old(self)@);
                &&& final(self)@ == next
                &&& match r {
                    Some(t) => out == Some((t.target, t.query@)),
                    None => out is None,
                }
            }),
    {
        let ghost before = self.enqueued@;
        match self.enqueued.pop_front() {
            None => None,
            Some(Enqueued { target, query }) => {
                self.transmitted.insert(query.header.id, (target, query.question.kind));
                assert(pending_view(self.enqueued@) =~= pending_view(before).skip(1));
                Some(Transmit { target, query })
            },
        }
    }

    /// Matches a response to its transaction by id, ends the transaction, and
    /// classifies the response by the type its query asked for.
    pub fn handle_response(&mut self, nameserver: Endpoint, response: Message) -> (r: Result<
        Response,
        UnknownId,
    >)
        ensures
            ({
                let id = response.header.id;
                if old(self)@.transmitted.contains_key(id) {
                    let (target, interest) = old(self)@.transmitted[id];
                    &&& final(self)@.pending == old(self)@.pending
                    &&& final(self)@.transmitted == old(self)@.transmitted.remove(id)
                    &&& r matches Ok(resp) && resp.source == nameserver && resp.target == target
                        && resp.outcome@ == classify(response@, interest)
                } else {
                    &&& final(self)@ == old(self)@
                    &&& r == Err::<Response, UnknownId>(UnknownId(id))
                }
            }),
    {
        let id = response.header.id;
        match self.transmitted.remove(&id) {
            None => {
                assert(self.transmitted@ =~= old(self).transmitted@);
                Err(UnknownId(id))
            },
            Some((target, interest)) => {
                let outcome = classify_response(response, interest);
                Ok(Response { source: nameserver, target, outcome })
            },
        }
    }

    /// Ends the transaction `id` without a response; returns its target and
    /// type where there was one.
    pub fn handle_timeout(&mut self, id: u16) -> (r: Option<(Endpoint, QType)>)
        ensures
            final(self)@.pending == old(self)@.pending,
            final(self)@.transmitted == old(self)@.transmitted.remove(id),
            r == (if old(self)@.transmitted.contains_key(id) {
                Some(old(self)@.transmitted[id])
            } else {
                None
            }),
    {
        self.transmitted.remove(&id)
    }
}

/// Queries leave in the order they were enqueued: from an empty queue, two
/// enqueues then two polls hand out the first query, then the second.
pub proof fn lemma_poll_order(
    s: EngineModel,
    first_target: Endpoint,
    first: QueryModel,
    second_target: Endpoint,
    second: QueryModel,
)
    requires
        s.pending.len() == 0,
    ensures
        ({
            let queued = after_enqueue(
                after_enqueue(s, first_target, first),
                second_target,
                second,
            );
            let (polled, out1) = after_poll(queued);
            let (_, out2) = after_poll(polled);
            out1 == Some((first_target, first)) && out2 == Some((second_target, second))
        }),
{
    let queued = after_enqueue(after_enqueue(s, first_target, first), second_target, second);
    assert(queued.pending =~= seq![(first_target, first), (second_target, second)]);
    let (polled, _) = after_poll(queued);
    assert(polled.pending =~= seq![(second_target, second)]);
}

} // verus!
