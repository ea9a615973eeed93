use vstd::prelude::*;
use crate::dns::Error;
use crate::dns::QuestionClass;
use crate::dns::QuestionType;
use crate::dns::i32_at;
use crate::dns::i32_octets;
use crate::dns::u16_at;
use crate::dns::u16_octets;

verus! {

/// A question as mathematics.
pub struct QuestionView {
    pub name: Seq<u8>,
    pub qtype: QuestionType,
    pub qclass: QuestionClass,
}

/// The data of a record: four octets of an address, or octets left as they came.
pub enum DataView {
    A(Seq<u8>),
    Bytes(Seq<u8>),
}

/// A resource record as mathematics.
pub struct RecordView {
    pub name: Seq<u8>,
    pub rtype: u16,
    pub rclass: u16,
    pub ttl: i32,
    pub data: DataView,
}

/// A message as mathematics: the two header words and the four sections.
pub struct MessageView {
    pub tx_id: u16,
    pub flags: u16,
    pub questions: Seq<QuestionView>,
    pub answers: Seq<RecordView>,
    pub name_server: Seq<RecordView>,
    pub additional: Seq<RecordView>,
}

/// The octet `.` that joins the labels of a name.
pub const DOT: u8 = 46;

/// The length of the header.
pub const HEADER_LEN: usize = 12;

/// The first offset that a pointer cannot express.
pub const POINTER_LIMIT: usize = 0x4000;

/// Where the first `.` of `n` stands, or the length of `n` if it has none.
pub open spec fn first_dot(n: Seq<u8>) -> int
    decreases n.len(),
{
    if n.len() == 0 || n[0] == DOT {
        0
    } else {
        1 + first_dot(n.skip(1))
    }
}

/// Whether the dotted octets `n`, which are not empty, split into labels of
/// 1 to 63 octets each.
pub open spec fn labels_ok(n: Seq<u8>) -> bool
    decreases n.len(),
{
    let k = first_dot(n);
    &&& 1 <= k <= 63
    &&& (k < n.len() ==> labels_ok(n.skip(k + 1)))
}

/// Whether `n` is a name: at most 255 octets, and either the root (no
/// octets) or labels of 1 to 63 octets joined by `.`.
pub open spec fn name_ok(n: Seq<u8>) -> bool {
    n.len() <= 255 && (n.len() == 0 || labels_ok(n))
}

/// The labels of `n` on the wire, each behind its length.
pub open spec fn wire_labels(n: Seq<u8>) -> Seq<u8>
    decreases n.len(),
{
    let k = first_dot(n);
    if 0 <= k < n.len() {
        seq![k as u8] + n.take(k) + wire_labels(n.skip(k + 1))
    } else {
        seq![k as u8] + n
    }
}

/// The name `n` on the wire, written out in full: its labels and a zero octet.
pub open spec fn wire_name(n: Seq<u8>) -> Seq<u8> {
    if n.len() == 0 {
        seq![0u8]
    } else {
        wire_labels(n) + seq![0u8]
    }
}

/// The dotted octets read so far with one more label behind them.
pub open spec fn join(acc: Seq<u8>, label: Seq<u8>) -> Seq<u8> {
    if acc.len() == 0 {
        label
    } else {
        acc + seq![DOT] + label
    }
}

/// The position that a name read at `pos` hands back: behind the first
/// pointer that was followed, or else `here`.
pub open spec fn resume(back: Option<int>, here: int) -> int {
    match back {
        Some(b) => b,
        None => here,
    }
}

/// Reads the label whose length octet stands at `pos` and puts it behind
/// the dotted octets `acc`.  A length of 64 or more is no label; the label
/// must lie inside the message, and the name must stay within 255 octets.
pub open spec fn label_step(msg: Seq<u8>, pos: int, acc: Seq<u8>) -> Result<(Seq<u8>, int), Error> {
    let c = msg[pos];
    if c >= 64 || pos + 1 + c > msg.len() {
        Err(Error::MalformedName)
    } else {
        let grown = join(acc, msg.subrange(pos + 1, pos + 1 + c));
        if grown.len() > 255 {
            Err(Error::MalformedName)
        } else {
            Ok((grown, pos + 1 + c))
        }
    }
}

/// Reads labels from `pos`, behind the dotted octets `acc` that were read
/// before, following at most `hops` pointers.
///
/// A zero octet ends the name.  An octet of 192 or more (both high bits
/// set) starts a pointer, whose fourteen low bits are an offset from the
/// start of the message, where reading goes on.  Any other octet is the
/// length of a label.  The result is the name and the position behind it,
/// which is behind the first pointer if one was followed.
pub open spec fn walk(msg: Seq<u8>, pos: int, acc: Seq<u8>, hops: nat, back: Option<int>) -> Result<
    (Seq<u8>, int),
    Error,
>
    decreases hops, msg.len() - pos,
{
    if pos < 0 || pos >= msg.len() {
        Err(Error::MalformedName)
    } else {
        let c = msg[pos];
        if c == 0 {
            Ok((acc, resume(back, pos + 1)))
        } else if c >= 192 {
            if pos + 1 >= msg.len() {
                Err(Error::MalformedName)
            } else {
                let target = (c - 192) * 256 + msg[pos + 1];
                if target >= msg.len() || hops == 0 {
                    Err(Error::MalformedName)
                } else {
                    walk(msg, target, acc, (hops - 1) as nat, Some(resume(back, pos + 2)))
                }
            }
        } else {
            match label_step(msg, pos, acc) {
                Err(e) => Err(e),
                Ok((grown, next)) => walk(msg, next, grown, hops, back),
            }
        }
    }
}

/// The name that stands at `pos` in `msg`, and the position behind it.  As
/// many pointers are followed as the message has octets; a name that needs
/// more runs in a circle.
pub open spec fn parse_name(msg: Seq<u8>, pos: int) -> Result<(Seq<u8>, int), Error> {
    walk(msg, pos, Seq::empty(), msg.len(), None)
}

/// The question that stands at `pos` in `msg`, and the position behind it.
pub open spec fn parse_question(msg: Seq<u8>, pos: int) -> Result<(QuestionView, int), Error> {
    match parse_name(msg, pos) {
        Err(e) => Err(e),
        Ok((name, p)) => {
            if p + 2 > msg.len() {
                Err(Error::Truncated)
            } else {
                match QuestionType::from_code(u16_at(msg, p)) {
                    None => Err(Error::UnknownQType),
                    Some(qtype) => {
                        if p + 4 > msg.len() {
                            Err(Error::Truncated)
                        } else {
                            match QuestionClass::from_code(u16_at(msg, p + 2)) {
                                None => Err(Error::UnknownQClass),
                                Some(qclass) => Ok((QuestionView { name, qtype, qclass }, p + 4)),
                            }
                        }
                    },
                }
            }
        },
    }
}

/// The data of a record of type `rtype` whose ten fixed octets end at `p`
/// and announce `len` octets of data.
pub open spec fn parse_data(msg: Seq<u8>, p: int, rtype: u16, len: int) -> Result<
    (DataView, int),
    Error,
> {
    if rtype == 1 && len != 4 {
        Err(Error::Parse)
    } else if p + len > msg.len() {
        Err(Error::Truncated)
    } else if rtype == 1 {
        Ok((DataView::A(msg.subrange(p, p + len)), p + len))
    } else {
        Ok((DataView::Bytes(msg.subrange(p, p + len)), p + len))
    }
}

/// The record that stands at `pos` in `msg`, and the position behind it.
pub open spec fn parse_record(msg: Seq<u8>, pos: int) -> Result<(RecordView, int), Error> {
    match parse_name(msg, pos) {
        Err(e) => Err(e),
        Ok((name, p)) => {
            if p + 10 > msg.len() {
                Err(Error::Truncated)
            } else {
                let rtype = u16_at(msg, p);
                match parse_data(msg, p + 10, rtype, u16_at(msg, p + 8) as int) {
                    Err(e) => Err(e),
                    Ok((data, q)) => Ok(
                        (
                            RecordView {
                                name,
                                rtype,
                                rclass: u16_at(msg, p + 2),
                                ttl: i32_at(msg, p + 4),
                                data,
                            },
                            q,
                        ),
                    ),
                }
            }
        },
    }
}

/// The first `count` questions that stand at `start` in `msg`, one behind
/// the other, and the position behind the last.
pub open spec fn parse_questions(msg: Seq<u8>, start: int, count: nat) -> Result<
    (Seq<QuestionView>, int),
    Error,
>
    decreases count,
{
    if count == 0 {
        Ok((Seq::empty(), start))
    } else {
        match parse_questions(msg, start, (count - 1) as nat) {
            Err(e) => Err(e),
            Ok((qs, p)) => match parse_question(msg, p) {
                Err(e) => Err(e),
                Ok((q, next)) => Ok((qs.push(q), next)),
            },
        }
    }
}

/// The first `count` records that stand at `start` in `msg`, one behind the
/// other, and the position behind the last.
pub open spec fn parse_records(msg: Seq<u8>, start: int, count: nat) -> Result<
    (Seq<RecordView>, int),
    Error,
>
    decreases count,
{
    if count == 0 {
        Ok((Seq::empty(), start))
    } else {
        match parse_records(msg, start, (count - 1) as nat) {
            Err(e) => Err(e),
            Ok((rs, p)) => match parse_record(msg, p) {
                Err(e) => Err(e),
                Ok((r, next)) => Ok((rs.push(r), next)),
            },
        }
    }
}

/// The message that the octets `msg` spell: the header, then as many
/// questions, answers, authority records and additional records as the
/// header counts.  What follows them is not looked at.
#[verifier::opaque]
pub open spec fn parse_message(msg: Seq<u8>) -> Result<MessageView, Error> {
    if msg.len() < HEADER_LEN {
        Err(Error::Truncated)
    } else {
        match parse_questions(msg, HEADER_LEN as int, u16_at(msg, 4) as nat) {
            Err(e) => Err(e),
            Ok((questions, q_end)) => match parse_records(msg, q_end, u16_at(msg, 6) as nat) {
                Err(e) => Err(e),
                Ok((answers, an_end)) => match parse_records(msg, an_end, u16_at(msg, 8) as nat) {
                    Err(e) => Err(e),
                    Ok((name_server, ns_end)) => match parse_records(msg, ns_end, u16_at(msg, 10) as nat) {
                        Err(e) => Err(e),
                        Ok((additional, ar_end)) => Ok(
                            MessageView {
                                tx_id: u16_at(msg, 0),
                                flags: u16_at(msg, 2),
                                questions,
                                answers,
                                name_server,
                                additional,
                            },
                        ),
                    },
                },
            },
        }
    }
}

/// An encoder at work: the octets written so far, and the names written out
/// in full so far, each with the offset it stands at.
pub struct Emitter {
    pub out: Seq<u8>,
    pub table: Seq<(Seq<u8>, int)>,
}

/// The offset of the earliest entry of `table` for `name`.
pub open spec fn lookup(table: Seq<(Seq<u8>, int)>, name: Seq<u8>) -> Option<int>
    decreases table.len(),
{
    if table.len() == 0 {
        None
    } else if table[0].0 == name {
        Some(table[0].1)
    } else {
        lookup(table.skip(1), name)
    }
}

/// A pointer to `offset`: two octets, the two high bits set.
pub open spec fn wire_pointer(offset: int) -> Seq<u8> {
    u16_octets((0xC000 + offset) as u16)
}

/// Writes a name: a pointer to where it was written out before, or else
/// the name in full, which is noted in the table if a pointer can reach it.
pub open spec fn emit_name(e: Emitter, name: Seq<u8>) -> Emitter {
    match lookup(e.table, name) {
        Some(offset) => Emitter { out: e.out + wire_pointer(offset), table: e.table },
        None => Emitter {
            out: e.out + wire_name(name),
            table: if e.out.len() < POINTER_LIMIT {
                e.table.push((name, e.out.len() as int))
            } else {
                e.table
            },
        },
    }
}

/// Writes a question: its name, its type and its class.
pub open spec fn emit_question(e: Emitter, q: QuestionView) -> Emitter {
    let named = emit_name(e, q.name);
    Emitter {
        out: named.out + u16_octets(q.qtype.code_spec()) + u16_octets(q.qclass.code_spec()),
        table: named.table,
    }
}

/// The octets of a record's data.
pub open spec fn data_octets(d: DataView) -> Seq<u8> {
    match d {
        DataView::A(s) => s,
        DataView::Bytes(s) => s,
    }
}

/// Writes a record: its name, its type, class and time to live, the length
/// of its data and the data.
pub open spec fn emit_record(e: Emitter, r: RecordView) -> Emitter {
    let named = emit_name(e, r.name);
    Emitter {
        out: named.out + u16_octets(r.rtype) + u16_octets(r.rclass) + i32_octets(r.ttl)
            + u16_octets(data_octets(r.data).len() as u16) + data_octets(r.data),
        table: named.table,
    }
}

/// Writes the questions of a section, first to last.
pub open spec fn emit_questions(e: Emitter, qs: Seq<QuestionView>) -> Emitter
    decreases qs.len(),
{
    if qs.len() == 0 {
        e
    } else {
        emit_question(emit_questions(e, qs.drop_last()), qs.last())
    }
}

/// Writes the records of a section, first to last.
pub open spec fn emit_records(e: Emitter, rs: Seq<RecordView>) -> Emitter
    decreases rs.len(),
{
    if rs.len() == 0 {
        e
    } else {
        emit_record(emit_records(e, rs.drop_last()), rs.last())
    }
}

/// The twelve octets of the header: the two words of the message and the
/// lengths of its four sections.
pub open spec fn header_octets(m: MessageView) -> Seq<u8> {
    u16_octets(m.tx_id) + u16_octets(m.flags) + u16_octets(m.questions.len() as u16) + u16_octets(
        m.answers.len() as u16,
    ) + u16_octets(m.name_server.len() as u16) + u16_octets(m.additional.len() as u16)
}

/// The encoder after the whole of `m`.
#[verifier::opaque]
pub open spec fn emit_sections(m: MessageView) -> Emitter {
    let e0 = Emitter { out: header_octets(m), table: Seq::empty() };
    let e1 = emit_questions(e0, m.questions);
    let e2 = emit_records(e1, m.answers);
    let e3 = emit_records(e2, m.name_server);
    emit_records(e3, m.additional)
}

/// The message `m` on the wire.
pub open spec fn emit_message(m: MessageView) -> Seq<u8> {
    emit_sections(m).out
}

/// Whether a question reads back as it is written: its name is a name,
/// and its type is one that is read.
pub open spec fn question_ok(q: QuestionView) -> bool {
    name_ok(q.name) && q.qtype.readable()
}

/// Whether a record reads back as it is written: its name is a name, an
/// address has type A and four octets, and other data has another type and
/// a length that fits sixteen bits.
pub open spec fn record_ok(r: RecordView) -> bool {
    &&& name_ok(r.name)
    &&& match r.data {
        DataView::A(s) => r.rtype == 1 && s.len() == 4,
        DataView::Bytes(s) => r.rtype != 1 && s.len() <= 0xffff,
    }
}

/// Whether a section of questions reads back as it is written.
pub open spec fn questions_ok(qs: Seq<QuestionView>) -> bool {
    qs.len() <= 0xffff && forall|i: int| 0 <= i < qs.len() ==> question_ok(#[trigger] qs[i])
}

/// Whether a section of records reads back as it is written.
pub open spec fn records_ok(rs: Seq<RecordView>) -> bool {
    rs.len() <= 0xffff && forall|i: int| 0 <= i < rs.len() ==> record_ok(#[trigger] rs[i])
}

/// Whether `m` has an encoding that reads back as `m`: every name is a
/// name, every question type is one that is read, every record's data fits
/// its type and its 16-bit length, and no section has more than 65535 items.
pub open spec fn message_ok(m: MessageView) -> bool {
    &&& questions_ok(m.questions)
    &&& records_ok(m.answers)
    &&& records_ok(m.name_server)
    &&& records_ok(m.additional)
}


/// Once reading questions has failed, reading more of them fails the same way.
pub proof fn lemma_questions_fail_on(msg: Seq<u8>, start: int, i: nat, n: nat)
    requires
        i <= n,
        parse_questions(msg, start, i) is Err,
    ensures
        parse_questions(msg, start, n) == parse_questions(msg, start, i),
    decreases n,
{
    if i < n {
        lemma_questions_fail_on(msg, start, i, (n - 1) as nat);
    }
}

/// Once reading records has failed, reading more of them fails the same way.
pub proof fn lemma_records_fail_on(msg: Seq<u8>, start: int, i: nat, n: nat)
    requires
        i <= n,
        parse_records(msg, start, i) is Err,
    ensures
        parse_records(msg, start, n) == parse_records(msg, start, i),
    decreases n,
{
    if i < n {
        lemma_records_fail_on(msg, start, i, (n - 1) as nat);
    }
}


/// Where the first `.` stands does not depend on how the octets before it
/// are counted: with no `.` among the first `j` octets, it is `j` further
/// than in what follows them.
pub proof fn lemma_first_dot_skip(n: Seq<u8>, j: int)
    requires
        0 <= j <= n.len(),
        forall|i: int| 0 <= i < j ==> n[i] != DOT,
    ensures
        first_dot(n) == j + first_dot(n.skip(j)),
        0 <= first_dot(n.skip(j)) <= n.len() - j,
{
    lemma_first_dot_bounds(n.skip(j));
    lemma_first_dot_bounds(n);
    assert(n.skip(0) =~= n);
    lemma_first_dot_from(n, 0, j);
}

/// The first `.` lies within the octets.
pub proof fn lemma_first_dot_bounds(n: Seq<u8>)
    ensures
        0 <= first_dot(n) <= n.len(),
        first_dot(n) < n.len() ==> n[first_dot(n)] == DOT,
        forall|i: int| 0 <= i < first_dot(n) ==> n[i] != DOT,
    decreases n.len(),
{
    if n.len() == 0 || n[0] == DOT {
    } else {
        let rest = n.skip(1);
        lemma_first_dot_bounds(rest);
        assert forall|i: int| 0 <= i < first_dot(n) implies n[i] != DOT by {
            if i > 0 {
                assert(rest[i - 1] == n[i]);
            }
        }
    }
}

proof fn lemma_first_dot_from(n: Seq<u8>, a: int, b: int)
    requires
        0 <= a <= b <= n.len(),
        forall|i: int| a <= i < b ==> n[i] != DOT,
    ensures
        first_dot(n.skip(a)) == (b - a) + first_dot(n.skip(b)),
    decreases b - a,
{
    if a < b {
        assert(n.skip(a)[0] == n[a]);
        assert(n.skip(a).skip(1) =~= n.skip(a + 1));
        lemma_first_dot_from(n, a + 1, b);
    }
}

/// The view of a name table that the encoder keeps: names as octets,
/// offsets as numbers.
pub open spec fn table_fits(table: Seq<(Seq<u8>, int)>) -> bool {
    forall|i: int| 0 <= i < table.len() ==> 0 <= (#[trigger] table[i]).1 < POINTER_LIMIT
}

/// What `lookup` finds is an offset of the table.
pub proof fn lemma_lookup_fits(table: Seq<(Seq<u8>, int)>, name: Seq<u8>)
    requires
        table_fits(table),
    ensures
        lookup(table, name) matches Some(off) ==> 0 <= off < POINTER_LIMIT,
    decreases table.len(),
{
    if table.len() > 0 && table[0].0 != name {
        let rest = table.skip(1);
        assert forall|i: int| 0 <= i < rest.len() implies 0 <= (#[trigger] rest[i]).1
            < POINTER_LIMIT by {
            assert(rest[i] == table[i + 1]);
        }
        lemma_lookup_fits(rest, name);
    }
}

} // verus!
