//! Domain names: the expanded, dotted form in memory, and the label codec on
//! the wire, with compression pointers followed on decoding.
use vstd::prelude::*;

use crate::error::{DecodeError, Invalid};
use crate::wire::decoded_as;

verus! {

/// The separator between labels in the expanded form.
pub const DOT: u8 = 46;

/// How many compression pointers one name may follow.
pub const MAX_POINTER_CHASES: u32 = 128;

/// Largest length of one label.
pub const MAX_LABEL_LEN: usize = 63;

/// A domain name in expanded form: its labels joined by `.`, case preserved.
/// Two names are equal when they agree up to ASCII letter case.
#[derive(Debug, Clone)]
pub struct Name(pub(crate) Vec<u8>);

/// Why bytes cannot stand for a name.
#[derive(Debug, Clone, Copy, PartialEq, Eq, Structural)]
pub enum NameError {
    /// A byte outside ASCII.
    NotAscii,
    /// A label longer than 63 octets.
    LabelTooLong,
}

impl View for Name {
    type V = Seq<u8>;

    closed spec fn view(&self) -> Seq<u8> {
        self.0@
    }
}

/// Labels joined by dots.
pub open spec fn join(labels: Seq<Seq<u8>>) -> Seq<u8>
    decreases labels.len(),
{
    if labels.len() == 0 {
        seq![]
    } else if labels.len() == 1 {
        labels[0]
    } else {
        join(labels.drop_last()) + seq![DOT] + labels.last()
    }
}

/// The pieces of `s` between dots (one empty piece for an empty `s`).
pub open spec fn split(s: Seq<u8>) -> Seq<Seq<u8>>
    decreases s.len(),
{
    if s.len() == 0 {
        seq![seq![]]
    } else {
        let r = split(s.drop_last());
        if s.last() == DOT {
            r.push(seq![])
        } else {
            r.update(r.len() - 1, r.last().push(s.last()))
        }
    }
}

/// The labels of a name: none for the root (the empty name), else the
/// pieces between dots.
pub open spec fn name_labels(s: Seq<u8>) -> Seq<Seq<u8>> {
    if s.len() == 0 {
        seq![]
    } else {
        split(s)
    }
}

/// Each label written as its length octet and its bytes, without the
/// terminating zero.
pub open spec fn labels_wire(labels: Seq<Seq<u8>>) -> Seq<u8>
    decreases labels.len(),
{
    if labels.len() == 0 {
        seq![]
    } else {
        labels_wire(labels.drop_last()) + seq![labels.last().len() as u8] + labels.last()
    }
}

/// The uncompressed wire form of a name.
pub open spec fn name_wire(s: Seq<u8>) -> Seq<u8> {
    labels_wire(name_labels(s)) + seq![0u8]
}

/// Whether every label of the name fits its length octet.
pub open spec fn encodable(s: Seq<u8>) -> bool {
    forall|i: int| 0 <= i < name_labels(s).len() ==> #[trigger] name_labels(s)[i].len() <= 63
}

/// The labels of the name at `pos`, with the position where the name ends on
/// the branch that starts at `pos`, after `jumps` pointers were followed.
///
/// A zero octet ends the name; `00llllll` starts a label of `l` octets;
/// `11oooooo oooooooo` is a pointer to offset `o`, which ends the name on this
/// branch and continues its labels there; the other two forms are reserved.
pub open spec fn parse_labels(msg: Seq<u8>, pos: nat, jumps: nat) -> Result<
    (Seq<Seq<u8>>, nat),
    DecodeError,
>
    decreases (if jumps <= 128 { 128 - jumps } else { 0 }) as nat, (if pos <= msg.len() {
        msg.len() - pos
    } else {
        0
    }) as nat,
{
    if pos >= msg.len() {
        Err(DecodeError::NeedMore)
    } else {
        let b = msg[pos as int];
        if b == 0 {
            Ok((seq![], pos + 1))
        } else if b < 64 {
            let end = (pos + 1 + b) as nat;
            if end > msg.len() {
                Err(DecodeError::NeedMore)
            } else {
                match parse_labels(msg, end, jumps) {
                    Ok((rest, e)) => Ok((seq![msg.subrange(pos + 1 as int, end as int)] + rest, e)),
                    Err(x) => Err(x),
                }
            }
        } else if b >= 192 {
            if pos + 2 > msg.len() {
                Err(DecodeError::NeedMore)
            } else {
                let target = ((b - 192) * 256 + msg[pos + 1 as int]) as nat;
                if target >= msg.len() {
                    Err(DecodeError::Invalid(Invalid::PointerOutOfRange))
                } else if jumps >= 128 {
                    Err(DecodeError::Invalid(Invalid::PointerLoop))
                } else {
                    match parse_labels(msg, target, jumps + 1) {
                        Ok((labels, _)) => Ok((labels, pos + 2)),
                        Err(x) => Err(x),
                    }
                }
            }
        } else {
            Err(DecodeError::Invalid(Invalid::ReservedLabelForm))
        }
    }
}

/// The expanded name at `pos` and the position just past it.
pub open spec fn spec_name(msg: Seq<u8>, pos: int) -> Result<(Seq<u8>, int), DecodeError> {
    match parse_labels(msg, pos as nat, 0) {
        Ok((labels, end)) => Ok((join(labels), end as int)),
        Err(x) => Err(x),
    }
}

/// What a partly walked name comes to: the labels read so far, then those of
/// the rest; its end is the first pointer's end, where one was followed.
pub open spec fn resume(
    done: Seq<Seq<u8>>,
    end: Option<usize>,
    rest: Result<(Seq<Seq<u8>>, nat), DecodeError>,
) -> Result<(Seq<Seq<u8>>, nat), DecodeError> {
    match rest {
        Ok((labels, e)) => Ok(
            (
                done + labels,
                match end {
                    Some(x) => x as nat,
                    None => e,
                },
            ),
        ),
        Err(x) => Err(x),
    }
}

/// The case-folded form of an octet: ASCII upper case letters become lower case.
pub open spec fn fold_octet(b: u8) -> u8 {
    if 65 <= b <= 90 {
        (b + 32) as u8
    } else {
        b
    }
}

/// Whether two names agree up to ASCII letter case.
pub open spec fn same_name(a: Seq<u8>, b: Seq<u8>) -> bool {
    &&& a.len() == b.len()
    &&& forall|i: int| 0 <= i < a.len() ==> fold_octet(#[trigger] a[i]) == fold_octet(b[i])
}

/// Splitting always gives at least one piece.
pub proof fn lemma_split_nonempty(s: Seq<u8>)
    ensures
        split(s).len() >= 1,
    decreases s.len(),
{
    if s.len() > 0 {
        lemma_split_nonempty(s.drop_last());
    }
}

proof fn lemma_join_extend_last(labels: Seq<Seq<u8>>, c: u8)
    requires
        labels.len() >= 1,
    ensures
        join(labels.update(labels.len() - 1, labels.last().push(c))) == join(labels).push(c),
{
    let u = labels.update(labels.len() - 1, labels.last().push(c));
    if labels.len() == 1 {
        assert(u.len() == 1);
    } else {
        assert(u.drop_last() =~= labels.drop_last());
        assert(join(u) == join(u.drop_last()) + seq![DOT] + u.last());
        assert(join(u) =~= join(labels).push(c));
    }
}

/// Joining the pieces between dots gives the bytes back.
pub proof fn lemma_join_split(s: Seq<u8>)
    ensures
        join(split(s)) == s,
    decreases s.len(),
{
    if s.len() > 0 {
        let r = split(s.drop_last());
        lemma_join_split(s.drop_last());
        lemma_split_nonempty(s.drop_last());
        if s.last() == DOT {
            assert(r.push(seq![]).drop_last() =~= r);
            assert(join(r.push(seq![])) =~= s);
        } else {
            lemma_join_extend_last(r, s.last());
            assert(join(split(s)) =~= s);
        }
    } else {
        assert(join(split(s)) =~= s);
    }
}

/// The expanded form of a name's labels is the name.
pub proof fn lemma_join_name_labels(s: Seq<u8>)
    ensures
        join(name_labels(s)) == s,
{
    if s.len() == 0 {
        assert(join(name_labels(s)) =~= s);
    } else {
        lemma_join_split(s);
    }
}

proof fn lemma_labels_wire_front(a: Seq<u8>, labels: Seq<Seq<u8>>)
    ensures
        labels_wire(seq![a] + labels) == seq![a.len() as u8] + a + labels_wire(labels),
    decreases labels.len(),
{
    if labels.len() == 0 {
        assert(seq![a] + labels =~= seq![a]);
        assert(seq![a].drop_last() =~= Seq::<Seq<u8>>::empty());
        assert(seq![a].last() == a);
        assert(labels_wire(Seq::<Seq<u8>>::empty()) =~= Seq::<u8>::empty());
        assert(labels_wire(seq![a] + labels) =~= seq![a.len() as u8] + a + labels_wire(labels));
    } else {
        let l = seq![a] + labels;
        assert(l.drop_last() =~= seq![a] + labels.drop_last());
        lemma_labels_wire_front(a, labels.drop_last());
        assert(labels_wire(l) =~= seq![a.len() as u8] + a + labels_wire(labels));
    }
}

/// Labels of 1 to 63 octets, written uncompressed at `prefix.len()`, read
/// back as themselves, the name ending just past the zero octet.
pub proof fn lemma_parse_labels_wire(prefix: Seq<u8>, labels: Seq<Seq<u8>>, rest: Seq<u8>, jumps: nat)
    requires
        forall|i: int| 0 <= i < labels.len() ==> 1 <= #[trigger] labels[i].len() <= 63,
    ensures
        parse_labels(prefix + labels_wire(labels) + seq![0u8] + rest, prefix.len(), jumps) == Ok::<
            (Seq<Seq<u8>>, nat),
            DecodeError,
        >((labels, prefix.len() + labels_wire(labels).len() + 1)),
    decreases labels.len(),
{
    let msg = prefix + labels_wire(labels) + seq![0u8] + rest;
    if labels.len() == 0 {
        assert(labels_wire(labels) =~= Seq::<u8>::empty());
        assert(msg[prefix.len() as int] == 0);
        assert(labels =~= Seq::<Seq<u8>>::empty());
    } else {
        let a = labels[0];
        let tail = labels.skip(1);
        assert(labels =~= seq![a] + tail);
        lemma_labels_wire_front(a, tail);
        let prefix2 = prefix + seq![a.len() as u8] + a;
        assert(msg =~= prefix2 + labels_wire(tail) + seq![0u8] + rest);
        assert forall|i: int| 0 <= i < tail.len() implies 1 <= #[trigger] tail[i].len() <= 63 by {
            assert(tail[i] == labels[i + 1]);
        }
        lemma_parse_labels_wire(prefix2, tail, rest, jumps);
        assert(msg[prefix.len() as int] == a.len() as u8);
        assert(msg.subrange(prefix.len() + 1 as int, prefix.len() + 1 + a.len() as int) =~= a);
        assert(seq![a] + tail =~= labels);
        assert(prefix2.len() == prefix.len() + 1 + a.len());
    }
}

proof fn lemma_self_pointer_from(msg: Seq<u8>, pos: nat, jumps: nat)
    requires
        pos + 2 <= msg.len(),
        msg[pos as int] >= 192,
        (msg[pos as int] - 192) * 256 + msg[pos + 1 as int] == pos,
        jumps <= 128,
    ensures
        parse_labels(msg, pos, jumps) == Err::<(Seq<Seq<u8>>, nat), DecodeError>(
            DecodeError::Invalid(Invalid::PointerLoop),
        ),
    decreases 128 - jumps,
{
    if jumps < 128 {
        lemma_self_pointer_from(msg, pos, jumps + 1);
    }
}

/// A name that starts with a pointer to its own offset is rejected as a
/// pointer loop.
pub proof fn lemma_self_pointer_loops(msg: Seq<u8>, pos: nat)
    requires
        pos + 2 <= msg.len(),
        msg[pos as int] >= 192,
        (msg[pos as int] - 192) * 256 + msg[pos + 1 as int] == pos,
    ensures
        spec_name(msg, pos as int) == Err::<(Seq<u8>, int), DecodeError>(
            DecodeError::Invalid(Invalid::PointerLoop),
        ),
{
    lemma_self_pointer_from(msg, pos, 0);
}

/// A pointer whose target is at or past the end of the message is rejected
/// as out of range.
pub proof fn lemma_pointer_out_of_range(msg: Seq<u8>, pos: nat)
    requires
        pos + 2 <= msg.len(),
        msg[pos as int] >= 192,
        (msg[pos as int] - 192) * 256 + msg[pos + 1 as int] >= msg.len(),
    ensures
        spec_name(msg, pos as int) == Err::<(Seq<u8>, int), DecodeError>(
            DecodeError::Invalid(Invalid::PointerOutOfRange),
        ),
{
}

/// Names that differ only in the case of ASCII letters are equal.
pub proof fn lemma_case_insensitive(a: Seq<u8>, b: Seq<u8>)
    requires
        a.len() == b.len(),
        forall|i: int| 0 <= i < a.len() ==> (#[trigger] a[i] == b[i] || a[i] + 32 == b[i] && 65 <= a[i] <= 90 || b[i] + 32 == a[i] && 65 <= b[i] <= 90),
    ensures
        same_name(a, b),
{
}

/// Having followed one pointer fewer changes nothing where the walk succeeds.
proof fn lemma_fewer_jumps(msg: Seq<u8>, pos: nat, jumps: nat)
    requires
        parse_labels(msg, pos, jumps + 1) is Ok,
    ensures
        parse_labels(msg, pos, jumps) == parse_labels(msg, pos, jumps + 1),
    decreases (if jumps + 1 <= 128 { 128 - (jumps + 1) } else { 0 }) as nat, (if pos <= msg.len() {
        msg.len() - pos
    } else {
        0
    }) as nat,
{
    let b = msg[pos as int];
    if b != 0 && b < 64 {
        lemma_fewer_jumps(msg, (pos + 1 + b) as nat, jumps);
    } else if b >= 192 {
        let target = ((b - 192) * 256 + msg[pos + 1 as int]) as nat;
        lemma_fewer_jumps(msg, target, jumps + 1);
    }
}

/// A name that is a compression pointer decodes to the name found at the
/// pointer's target, and ends just past the pointer's two octets.
pub proof fn lemma_pointer_names_target(msg: Seq<u8>, pos: nat)
    requires
        pos + 2 <= msg.len(),
        msg[pos as int] >= 192,
        spec_name(msg, pos as int) is Ok,
    ensures
        ({
            let target = (msg[pos as int] - 192) * 256 + msg[pos + 1 as int];
            let (name, end) = spec_name(msg, pos as int)->Ok_0;
            &&& end == pos + 2
            &&& spec_name(msg, target) is Ok
            &&& (spec_name(msg, target)->Ok_0).0 == name
        }),
{
    let target = ((msg[pos as int] - 192) * 256 + msg[pos + 1 as int]) as nat;
    lemma_fewer_jumps(msg, target, 0);
}

/// Any strict prefix of uncompressed labels and their zero octet, cut at or
/// after `prefix`, reads as a name that needs more octets.
pub proof fn lemma_labels_wire_cut(prefix: Seq<u8>, labels: Seq<Seq<u8>>, k: nat, jumps: nat)
    requires
        forall|i: int| 0 <= i < labels.len() ==> 1 <= #[trigger] labels[i].len() <= 63,
        prefix.len() <= k < prefix.len() + labels_wire(labels).len() + 1,
    ensures
        parse_labels((prefix + labels_wire(labels) + seq![0u8]).take(k as int), prefix.len(), jumps)
            == Err::<(Seq<Seq<u8>>, nat), DecodeError>(DecodeError::NeedMore),
    decreases labels.len(),
{
    let full = prefix + labels_wire(labels) + seq![0u8];
    let msg = full.take(k as int);
    if labels.len() == 0 {
        assert(labels_wire(labels) =~= Seq::<u8>::empty());
    } else if k > prefix.len() {
        let a = labels[0];
        let tail = labels.skip(1);
        assert(labels =~= seq![a] + tail);
        lemma_labels_wire_front(a, tail);
        let prefix2 = prefix + seq![a.len() as u8] + a;
        assert(full =~= prefix2 + labels_wire(tail) + seq![0u8]);
        assert(msg[prefix.len() as int] == a.len() as u8);
        if k >= prefix2.len() {
            assert forall|i: int| 0 <= i < tail.len() implies 1 <= #[trigger] tail[i].len() <= 63 by {
                assert(tail[i] == labels[i + 1]);
            }
            lemma_labels_wire_cut(prefix2, tail, k, jumps);
        }
    }
}

impl Name {
    /// A name from its expanded bytes, which must be ASCII.
    pub fn new(bytes: Vec<u8>) -> (r: Result<Name, NameError>)
        ensures
            r is Ok <==> forall|i: int| 0 <= i < bytes@.len() ==> #[trigger] bytes@[i] < 128,
            r matches Ok(n) ==> n@ == bytes@,
            r matches Err(e) ==> e == NameError::NotAscii,
    {
        let mut i: usize = 0;
        while i < bytes.len()
            invariant
                i <= bytes@.len(),
                forall|j: int| 0 <= j < i ==> #[trigger] bytes@[j] < 128,
            decreases bytes@.len() - i,
        {
            if bytes[i] >= 128 {
                return Err(NameError::NotAscii);
            }
            i = i + 1;
        }
        Ok(Name(bytes))
    }

    /// The expanded bytes.
    pub fn as_bytes(&self) -> (r: &[u8])
        ensures
            r@ == self@,
    {
        self.0.as_slice()
    }

    /// Decodes the name at `start`, following compression pointers anywhere in
    /// `msg`; returns it with the position just past its inline octets.
    pub fn decode(msg: &[u8], start: usize) -> (r: Result<(Name, usize), DecodeError>)
        requires
            start <= msg@.len(),
        ensures
            decoded_as(r, spec_name(msg@, start as int)),
            r matches Ok((_, e)) ==> start < e <= msg@.len(),
    {
        let mut out: Vec<u8> = Vec::new();
        let ghost mut labels: Seq<Seq<u8>> = seq![];
        let mut pos = start;
        let mut jumps: u32 = 0;
        let mut end: Option<usize> = None;
        loop
            invariant
                pos <= msg@.len(),
                jumps <= MAX_POINTER_CHASES,
                end matches Some(e) ==> start < e <= msg@.len(),
                end is None ==> start <= pos,
                out@ == join(labels),
                out@.len() == 0 <==> labels.len() == 0,
                parse_labels(msg@, start as nat, 0) == resume(
                    labels,
                    end,
                    parse_labels(msg@, pos as nat, jumps as nat),
                ),
            decreases (MAX_POINTER_CHASES - jumps), msg@.len() - pos,
        {
            if pos >= msg.len() {
                return Err(DecodeError::NeedMore);
            }
            let b = msg[pos];
            if b == 0 {
                let fin = match end {
                    Some(e) => e,
                    None => pos + 1,
                };
                assert(labels + Seq::<Seq<u8>>::empty() =~= labels);
                return Ok((Name(out), fin));
            } else if b < 64 {
                let len = b as usize;
                if msg.len() - pos - 1 < len {
                    return Err(DecodeError::NeedMore);
                }
                let ghost before = out@;
                if out.len() > 0 {
                    out.push(DOT);
                }
                let ghost mid = out@;
                let stop = pos + 1 + len;
                let mut i: usize = 0;
                while i < len
                    invariant
                        i <= len,
                        stop == pos + 1 + len,
                        stop <= msg@.len(),
                        out@ == mid + msg@.subrange(pos + 1, pos + 1 + i),
                    decreases len - i,
                {
                    out.push(msg[pos + 1 + i]);
                    i = i + 1;
                    assert(out@ =~= mid + msg@.subrange(pos + 1, pos + 1 + i));
                }
                let ghost label = msg@.subrange(pos + 1, pos + 1 + len);
                proof {
                    let next = labels.push(label);
                    assert(next.drop_last() =~= labels);
                    if labels.len() == 0 {
                        assert(out@ =~= join(next));
                    } else {
                        assert(out@ =~= join(next));
                    }
                    let nl = (pos + 1 + len) as nat;
                    assert(labels + (seq![label] + Seq::<Seq<u8>>::empty()) =~= next
                        + Seq::<Seq<u8>>::empty());
                    match parse_labels(msg@, nl, jumps as nat) {
                        Ok((rest, e)) => {
                            assert(labels + (seq![label] + rest) =~= next + rest);
                        },
                        Err(x) => {},
                    }
                    labels = next;
                }
                pos = pos + 1 + len;
            } else if b >= 192 {
                if msg.len() - pos < 2 {
                    return Err(DecodeError::NeedMore);
                }
                let target = ((b - 192) as usize) * 256 + (msg[pos + 1] as usize);
                if target >= msg.len() {
                    return Err(DecodeError::Invalid(Invalid::PointerOutOfRange));
                }
                if jumps >= MAX_POINTER_CHASES {
                    return Err(DecodeError::Invalid(Invalid::PointerLoop));
                }
                if end.is_none() {
                    end = Some(pos + 2);
                }
                pos = target;
                jumps = jumps + 1;
            } else {
                return Err(DecodeError::Invalid(Invalid::ReservedLabelForm));
            }
        }
    }

    /// Appends the uncompressed wire form: each label as its length octet and
    /// bytes, then a zero octet. Fails, writing nothing, where a label is
    /// longer than 63 octets.
    pub fn encode(&self, dst: &mut Vec<u8>) -> (r: Result<(), NameError>)
        ensures
            r is Ok <==> encodable(self@),
            r is Ok ==> final(dst)@ == old(dst)@ + name_wire(self@),
            r matches Err(e) ==> e == NameError::LabelTooLong && final(dst)@ == old(dst)@,
    {
        let s = self.0.as_slice();
        let n = s.len();
        let mut out: Vec<u8> = Vec::new();
        if n == 0 {
            out.push(0u8);
            dst.append(&mut out);
            assert(name_labels(self@) =~= Seq::<Seq<u8>>::empty());
            assert(labels_wire(name_labels(self@)) =~= Seq::<u8>::empty());
            assert(dst@ =~= old(dst)@ + name_wire(self@));
            return Ok(());
        }
        let ghost mut done: Seq<Seq<u8>> = seq![];
        let mut ok = true;
        let mut start: usize = 0;
        let mut i: usize = 0;
        assert(s@.take(0) =~= Seq::<u8>::empty());
        assert(s@.subrange(0, 0) =~= Seq::<u8>::empty());
        assert(split(s@.take(0)) =~= done.push(s@.subrange(0, 0)));
        while i < n
            invariant
                n == s@.len(),
                s@ == self@,
                start <= i <= n,
                split(s@.take(i as int)) == done.push(s@.subrange(start as int, i as int)),
                out@ == labels_wire(done),
                ok <==> forall|k: int| 0 <= k < done.len() ==> #[trigger] done[k].len() <= 63,
            decreases n - i,
        {
            proof {
                assert(s@.take(i + 1).drop_last() =~= s@.take(i as int));
                assert(s@.take(i + 1).last() == s@[i as int]);
            }
            if s[i] == DOT {
                let ghost label = s@.subrange(start as int, i as int);
                let ghost old_done = done;
                let ghost before = out@;
                let l = i - start;
                if l > MAX_LABEL_LEN {
                    ok = false;
                }
                out.push(l as u8);
                let ghost mid = out@;
                let mut j: usize = start;
                while j < i
                    invariant
                        start <= j <= i,
                        i < s@.len(),
                        out@ == mid + s@.subrange(start as int, j as int),
                    decreases i - j,
                {
                    out.push(s[j]);
                    j = j + 1;
                    assert(out@ =~= mid + s@.subrange(start as int, j as int));
                }
                proof {
                    done = done.push(label);
                    assert(done.drop_last() =~= old_done);
                    assert(out@ =~= labels_wire(done));
                    assert(s@.subrange(i + 1, i + 1) =~= Seq::<u8>::empty());
                    assert(split(s@.take(i + 1)) =~= done.push(s@.subrange(i + 1, i + 1)));
                    if ok {
                        assert forall|k: int| 0 <= k < done.len() implies #[trigger] done[k].len()
                            <= 63 by {
                            if k < old_done.len() {
                                assert(done[k] == old_done[k]);
                            }
                        }
                    } else {
                        if l <= MAX_LABEL_LEN {
                            let k = choose|k: int| 0 <= k < old_done.len() && !(#[trigger] old_done[k].len() <= 63);
                            assert(done[k] == old_done[k]);
                        } else {
                            assert(done[done.len() - 1].len() > 63);
                        }
                    }
                }
                start = i + 1;
            } else {
                proof {
                    let cur = s@.subrange(start as int, i as int);
                    assert(cur.push(s@[i as int]) =~= s@.subrange(start as int, i + 1));
                    assert(done.push(cur).update(done.len() as int, cur.push(s@[i as int])) =~= done.push(
                        s@.subrange(start as int, i + 1),
                    ));
                }
            }
            i = i + 1;
        }
        let ghost label = s@.subrange(start as int, n as int);
        let ghost old_done = done;
        let l = n - start;
        if l > MAX_LABEL_LEN {
            ok = false;
        }
        out.push(l as u8);
        let ghost mid = out@;
        let mut j: usize = start;
        while j < n
            invariant
                start <= j <= n,
                n == s@.len(),
                out@ == mid + s@.subrange(start as int, j as int),
            decreases n - j,
        {
            out.push(s[j]);
            j = j + 1;
            assert(out@ =~= mid + s@.subrange(start as int, j as int));
        }
        proof {
            done = done.push(label);
            assert(done.drop_last() =~= old_done);
            assert(out@ =~= labels_wire(done));
            assert(s@.take(n as int) =~= s@);
            assert(name_labels(self@) == done);
            if ok {
                assert forall|k: int| 0 <= k < done.len() implies #[trigger] done[k].len() <= 63 by {
                    if k < old_done.len() {
                        assert(done[k] == old_done[k]);
                    }
                }
            } else {
                if l <= MAX_LABEL_LEN {
                    let k = choose|k: int| 0 <= k < old_done.len() && !(#[trigger] old_done[k].len() <= 63);
                    assert(done[k] == old_done[k]);
                } else {
                    assert(done[done.len() - 1].len() > 63);
                }
            }
        }
        if !ok {
            return Err(NameError::LabelTooLong);
        }
        out.push(0u8);
        dst.append(&mut out);
        assert(dst@ =~= old(dst)@ + name_wire(self@));
        Ok(())
    }
}

impl PartialEq for Name {
    fn eq(&self, other: &Name) -> (r: bool) {
        let a = self.0.as_slice();
        let b = other.0.as_slice();
        if a.len() != b.len() {
            return false;
        }
        let mut i: usize = 0;
        while i < a.len()
            invariant
                a@ == self@,
                b@ == other@,
                a@.len() == b@.len(),
                i <= a@.len(),
                forall|j: int| 0 <= j < i ==> fold_octet(#[trigger] a@[j]) == fold_octet(b@[j]),
            decreases a@.len() - i,
        {
            if fold(a[i]) != fold(b[i]) {
                return false;
            }
            i = i + 1;
        }
        true
    }
}

impl Eq for Name {
}

impl vstd::std_specs::cmp::PartialEqSpecImpl for Name {
    open spec fn obeys_eq_spec() -> bool {
        true
    }

    open spec fn eq_spec(&self, other: &Name) -> bool {
        same_name(self@, other@)
    }
}

/// Lexicographic order of two names with ASCII letter case folded.
pub open spec fn compare_folded(a: Seq<u8>, b: Seq<u8>) -> core::cmp::Ordering
    decreases a.len(),
{
    if a.len() == 0 {
        if b.len() == 0 {
            core::cmp::Ordering::Equal
        } else {
            core::cmp::Ordering::Less
        }
    } else if b.len() == 0 {
        core::cmp::Ordering::Greater
    } else if fold_octet(a[0]) < fold_octet(b[0]) {
        core::cmp::Ordering::Less
    } else if fold_octet(a[0]) > fold_octet(b[0]) {
        core::cmp::Ordering::Greater
    } else {
        compare_folded(a.skip(1), b.skip(1))
    }
}

impl PartialOrd for Name {
    fn partial_cmp(&self, other: &Name) -> (r: Option<core::cmp::Ordering>) {
        let a = self.0.as_slice();
        let b = other.0.as_slice();
        let mut i: usize = 0;
        assert(a@.skip(0) =~= a@);
        assert(b@.skip(0) =~= b@);
        while i < a.len() && i < b.len()
            invariant
                a@ == self@,
                b@ == other@,
                i <= a@.len(),
                i <= b@.len(),
                compare_folded(a@, b@) == compare_folded(a@.skip(i as int), b@.skip(i as int)),
            decreases a@.len() - i,
        {
            let (x, y) = (fold(a[i]), fold(b[i]));
            assert(a@.skip(i as int)[0] == a@[i as int]);
            assert(b@.skip(i as int)[0] == b@[i as int]);
            if x < y {
                return Some(core::cmp::Ordering::Less);
            } else if x > y {
                return Some(core::cmp::Ordering::Greater);
            }
            assert(a@.skip(i as int).skip(1) =~= a@.skip(i + 1));
            assert(b@.skip(i as int).skip(1) =~= b@.skip(i + 1));
            i = i + 1;
        }
        if i < b.len() {
            Some(core::cmp::Ordering::Less)
        } else if i < a.len() {
            Some(core::cmp::Ordering::Greater)
        } else {
            Some(core::cmp::Ordering::Equal)
        }
    }
}

impl vstd::std_specs::cmp::PartialOrdSpecImpl for Name {
    open spec fn obeys_partial_cmp_spec() -> bool {
        true
    }

    open spec fn partial_cmp_spec(&self, other: &Name) -> Option<core::cmp::Ordering> {
        Some(compare_folded(self@, other@))
    }
}

/// The octet with ASCII upper case letters made lower case.
pub fn fold(b: u8) -> (r: u8)
    ensures
        r == fold_octet(b),
{
    if 65 <= b && b <= 90 {
        b + 32
    } else {
        b
    }
}

} // verus!
