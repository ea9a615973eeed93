use vstd::prelude::*;
use crate::dns::i32_at;
use crate::dns::i32_octets;
use crate::dns::u16_at;
use crate::dns::u16_octets;
use crate::dns::Error;
use crate::wire::DOT;
use crate::wire::DataView;
use crate::wire::Emitter;
use crate::wire::HEADER_LEN;
use crate::wire::MessageView;
use crate::wire::POINTER_LIMIT;
use crate::wire::QuestionView;
use crate::wire::RecordView;
use crate::wire::data_octets;
use crate::wire::emit_message;
use crate::wire::emit_name;
use crate::wire::emit_question;
use crate::wire::emit_questions;
use crate::wire::emit_record;
use crate::wire::emit_records;
use crate::wire::emit_sections;
use crate::wire::first_dot;
use crate::wire::header_octets;
use crate::wire::join;
use crate::wire::label_step;
use crate::wire::labels_ok;
use crate::wire::lemma_first_dot_bounds;
use crate::wire::lookup;
use crate::wire::message_ok;
use crate::wire::name_ok;
use crate::wire::parse_data;
use crate::wire::parse_message;
use crate::wire::parse_name;
use crate::wire::parse_question;
use crate::wire::parse_questions;
use crate::wire::parse_record;
use crate::wire::parse_records;
use crate::wire::question_ok;
use crate::wire::record_ok;
use crate::wire::resume;
use crate::wire::walk;
use crate::wire::wire_labels;
use crate::wire::wire_name;
use crate::wire::wire_pointer;

verus! {

/// Whether `msg` holds the octets `part` at `pos`.
pub open spec fn holds_at(msg: Seq<u8>, pos: int, part: Seq<u8>) -> bool {
    &&& 0 <= pos
    &&& pos + part.len() <= msg.len()
    &&& msg.subrange(pos, pos + part.len()) == part
}

/// Whether the table entry `(name, offset)` is good for pointers in `msg`:
/// the name stands written out in full at the offset, within the first
/// `limit` octets, and a pointer can express the offset.
pub open spec fn entry_ok(msg: Seq<u8>, limit: int, entry: (Seq<u8>, int)) -> bool {
    &&& name_ok(entry.0)
    &&& 0 <= entry.1 < POINTER_LIMIT
    &&& entry.1 + wire_name(entry.0).len() <= limit
    &&& holds_at(msg, entry.1, wire_name(entry.0))
}

/// Whether the encoder `e` is on its way to `msg`: what it has written is
/// how `msg` starts, and every entry of its table is good.
pub open spec fn on_the_way(msg: Seq<u8>, e: Emitter) -> bool {
    &&& holds_at(msg, 0, e.out)
    &&& forall|i: int| 0 <= i < e.table.len() ==> entry_ok(msg, e.out.len() as int, #[trigger] e.table[i])
}

proof fn lemma_holds_at_parts(msg: Seq<u8>, pos: int, a: Seq<u8>, b: Seq<u8>)
    requires
        holds_at(msg, pos, a + b),
    ensures
        holds_at(msg, pos, a),
        holds_at(msg, pos + a.len(), b),
{
    assert(msg.subrange(pos, pos + a.len()) =~= a) by {
        assert forall|i: int| 0 <= i < a.len() implies msg.subrange(pos, pos + a.len())[i]
            == a[i] by {
            assert(msg.subrange(pos, pos + (a + b).len())[i] == (a + b)[i]);
        }
    }
    assert(msg.subrange(pos + a.len(), pos + a.len() + b.len()) =~= b) by {
        assert forall|i: int| 0 <= i < b.len() implies msg.subrange(
            pos + a.len(),
            pos + a.len() + b.len(),
        )[i] == b[i] by {
            assert(msg.subrange(pos, pos + (a + b).len())[a.len() + i] == (a + b)[a.len() + i]);
        }
    }
}

proof fn lemma_holds_at_octet(msg: Seq<u8>, pos: int, part: Seq<u8>, i: int)
    requires
        holds_at(msg, pos, part),
        0 <= i < part.len(),
    ensures
        msg[pos + i] == part[i],
{
    assert(msg.subrange(pos, pos + part.len())[i] == part[i]);
}

/// What the start of `msg` holds behind the octets `a` when it starts with
/// `a + b`.
proof fn lemma_holds_behind(msg: Seq<u8>, a: Seq<u8>, b: Seq<u8>)
    requires
        holds_at(msg, 0, a + b),
    ensures
        holds_at(msg, 0, a),
        holds_at(msg, a.len() as int, b),
{
    lemma_holds_at_parts(msg, 0, a, b);
}

/// Two octets written for a number read back as the number.
proof fn lemma_u16_back(msg: Seq<u8>, pos: int, n: u16)
    requires
        holds_at(msg, pos, u16_octets(n)),
    ensures
        u16_at(msg, pos) == n,
{
    lemma_holds_at_octet(msg, pos, u16_octets(n), 0);
    lemma_holds_at_octet(msg, pos, u16_octets(n), 1);
}

/// Four octets written for a signed number read back as the number.
proof fn lemma_i32_back(msg: Seq<u8>, pos: int, n: i32)
    requires
        holds_at(msg, pos, i32_octets(n)),
    ensures
        i32_at(msg, pos) == n,
{
    lemma_holds_at_octet(msg, pos, i32_octets(n), 0);
    lemma_holds_at_octet(msg, pos, i32_octets(n), 1);
    lemma_holds_at_octet(msg, pos, i32_octets(n), 2);
    lemma_holds_at_octet(msg, pos, i32_octets(n), 3);
}

/// The labels of a name take one octet more than the name.
pub proof fn lemma_wire_labels_len(n: Seq<u8>)
    ensures
        wire_labels(n).len() == n.len() + 1,
    decreases n.len(),
{
    lemma_first_dot_bounds(n);
    let k = first_dot(n);
    if 0 <= k < n.len() {
        lemma_wire_labels_len(n.skip(k + 1));
    }
}

/// Labels written out in full, and the zero octet behind them, read back as
/// the name that they spell, put behind what was read before.
#[verifier::rlimit(40)]
proof fn lemma_walk_labels(
    msg: Seq<u8>,
    pos: int,
    n: Seq<u8>,
    acc: Seq<u8>,
    hops: nat,
    back: Option<int>,
)
    requires
        n.len() > 0,
        labels_ok(n),
        join(acc, n).len() <= 255,
        holds_at(msg, pos, wire_labels(n) + seq![0u8]),
    ensures
        walk(msg, pos, acc, hops, back) == Ok::<(Seq<u8>, int), Error>(
            (join(acc, n), resume(back, pos + n.len() + 2)),
        ),
    decreases n.len(),
{
    lemma_first_dot_bounds(n);
    lemma_wire_labels_len(n);
    let k = first_dot(n);
    let enc = wire_labels(n) + seq![0u8];
    lemma_holds_at_octet(msg, pos, enc, 0);
    assert(msg[pos] == k as u8);
    let label = msg.subrange(pos + 1, pos + 1 + k);
    assert(label =~= n.take(k)) by {
        assert forall|i: int| 0 <= i < k implies label[i] == n[i] by {
            lemma_holds_at_octet(msg, pos, enc, 1 + i);
        }
    }
    let grown = join(acc, label);
    if k < n.len() {
        let rest = n.skip(k + 1);
        lemma_first_dot_bounds(rest);
        lemma_wire_labels_len(rest);
        assert(labels_ok(rest));
        assert(rest.len() > 0);
        assert(n =~= n.take(k) + seq![DOT] + rest);
        assert(join(grown, rest) =~= join(acc, n));
        assert(grown.len() <= 255);
        assert(label_step(msg, pos, acc) == Ok::<(Seq<u8>, int), Error>((grown, pos + 1 + k)));
        assert(enc =~= (seq![k as u8] + n.take(k)) + (wire_labels(rest) + seq![0u8]));
        lemma_holds_at_parts(msg, pos, seq![k as u8] + n.take(k), wire_labels(rest) + seq![0u8]);
        lemma_walk_labels(msg, pos + 1 + k, rest, grown, hops, back);
        assert(walk(msg, pos, acc, hops, back) == walk(msg, pos + 1 + k, grown, hops, back));
    } else {
        assert(n.take(k) =~= n);
        assert(grown == join(acc, n));
        assert(label_step(msg, pos, acc) == Ok::<(Seq<u8>, int), Error>((grown, pos + 1 + k)));
        lemma_holds_at_octet(msg, pos, enc, 1 + k);
        assert(msg[pos + 1 + k] == 0);
        assert(walk(msg, pos + 1 + k, grown, hops, back) == Ok::<(Seq<u8>, int), Error>(
            (grown, resume(back, pos + 1 + k + 1)),
        ));
        assert(walk(msg, pos, acc, hops, back) == walk(msg, pos + 1 + k, grown, hops, back));
    }
}

/// A name written out in full reads back as the name.
proof fn lemma_walk_full(msg: Seq<u8>, pos: int, n: Seq<u8>, hops: nat, back: Option<int>)
    requires
        name_ok(n),
        holds_at(msg, pos, wire_name(n)),
    ensures
        walk(msg, pos, Seq::empty(), hops, back) == Ok::<(Seq<u8>, int), Error>(
            (n, resume(back, pos + wire_name(n).len())),
        ),
{
    if n.len() == 0 {
        lemma_holds_at_octet(msg, pos, wire_name(n), 0);
        assert(n =~= Seq::<u8>::empty());
    } else {
        lemma_wire_labels_len(n);
        assert(join(Seq::<u8>::empty(), n) == n);
        lemma_walk_labels(msg, pos, n, Seq::empty(), hops, back);
    }
}

/// A pointer to a good table entry reads back as the entry's name.
proof fn lemma_walk_pointer(msg: Seq<u8>, pos: int, entry: (Seq<u8>, int), limit: int)
    requires
        entry_ok(msg, limit, entry),
        holds_at(msg, pos, wire_pointer(entry.1)),
    ensures
        parse_name(msg, pos) == Ok::<(Seq<u8>, int), Error>((entry.0, pos + 2)),
{
    let o = entry.1;
    let word = (0xC000 + o) as u16;
    lemma_holds_at_octet(msg, pos, wire_pointer(o), 0);
    lemma_holds_at_octet(msg, pos, wire_pointer(o), 1);
    assert(msg[pos] == (word / 256) as u8);
    assert(msg[pos + 1] == (word % 256) as u8);
    assert(msg[pos] >= 192);
    assert((msg[pos] - 192) * 256 + msg[pos + 1] == o);
    lemma_walk_full(msg, o, entry.0, (msg.len() - 1) as nat, Some(pos + 2));
}

/// What `lookup` finds is the offset of an entry for the name.
proof fn lemma_lookup_entry(table: Seq<(Seq<u8>, int)>, name: Seq<u8>) -> (i: int)
    requires
        lookup(table, name) is Some,
    ensures
        0 <= i < table.len(),
        table[i] == (name, lookup(table, name)->0),
    decreases table.len(),
{
    if table[0].0 == name {
        0
    } else {
        let j = lemma_lookup_entry(table.skip(1), name);
        assert(table.skip(1)[j] == table[j + 1]);
        j + 1
    }
}

/// Writing a name keeps the encoder on its way, and the name reads back.
#[verifier::rlimit(40)]
proof fn lemma_name_back(msg: Seq<u8>, e: Emitter, name: Seq<u8>)
    requires
        name_ok(name),
        on_the_way(msg, e),
        holds_at(msg, 0, emit_name(e, name).out),
    ensures
        on_the_way(msg, emit_name(e, name)),
        parse_name(msg, e.out.len() as int) == Ok::<(Seq<u8>, int), Error>(
            (name, emit_name(e, name).out.len() as int),
        ),
{
    let after = emit_name(e, name);
    let p = e.out.len() as int;
    match lookup(e.table, name) {
        Some(o) => {
            let i = lemma_lookup_entry(e.table, name);
            assert(entry_ok(msg, p, e.table[i]));
            lemma_holds_behind(msg, e.out, wire_pointer(o));
            lemma_walk_pointer(msg, p, e.table[i], p);
            assert forall|j: int| 0 <= j < after.table.len() implies entry_ok(
                msg,
                after.out.len() as int,
                #[trigger] after.table[j],
            ) by {
                assert(entry_ok(msg, p, e.table[j]));
            }
        },
        None => {
            lemma_holds_behind(msg, e.out, wire_name(name));
            lemma_walk_full(msg, p, name, msg.len(), None);
            assert forall|j: int| 0 <= j < after.table.len() implies entry_ok(
                msg,
                after.out.len() as int,
                #[trigger] after.table[j],
            ) by {
                if j < e.table.len() {
                    assert(entry_ok(msg, p, e.table[j]));
                }
            }
        },
    }
}


/// How `msg` starts is how it starts with less.
proof fn lemma_holds_shorter(msg: Seq<u8>, a: Seq<u8>, b: Seq<u8>)
    requires
        a.is_prefix_of(b),
        holds_at(msg, 0, b),
    ensures
        holds_at(msg, 0, a),
{
    assert(b =~= a + b.skip(a.len() as int));
    lemma_holds_behind(msg, a, b.skip(a.len() as int));
}

/// An encoder that has written more, with the same table, is still on its way.
proof fn lemma_on_the_way_further(msg: Seq<u8>, e: Emitter, further: Emitter)
    requires
        on_the_way(msg, e),
        further.table == e.table,
        e.out.len() <= further.out.len(),
        holds_at(msg, 0, further.out),
    ensures
        on_the_way(msg, further),
{
    assert forall|i: int| 0 <= i < further.table.len() implies entry_ok(
        msg,
        further.out.len() as int,
        #[trigger] further.table[i],
    ) by {
        assert(entry_ok(msg, e.out.len() as int, e.table[i]));
    }
}

proof fn lemma_name_grows(e: Emitter, name: Seq<u8>)
    ensures
        e.out.is_prefix_of(emit_name(e, name).out),
{
    match lookup(e.table, name) {
        Some(o) => {
            assert((e.out + wire_pointer(o)).subrange(0, e.out.len() as int) =~= e.out);
        },
        None => {
            assert((e.out + wire_name(name)).subrange(0, e.out.len() as int) =~= e.out);
        },
    }
}

proof fn lemma_prefix_more(a: Seq<u8>, b: Seq<u8>, c: Seq<u8>)
    requires
        a.is_prefix_of(b),
    ensures
        a.is_prefix_of(b + c),
{
    assert((b + c).subrange(0, a.len() as int) =~= b.subrange(0, a.len() as int));
}

proof fn lemma_prefix_chain(a: Seq<u8>, b: Seq<u8>, c: Seq<u8>)
    requires
        a.is_prefix_of(b),
        b.is_prefix_of(c),
    ensures
        a.is_prefix_of(c),
{
    assert(c.subrange(0, a.len() as int) =~= b.subrange(0, a.len() as int));
}

proof fn lemma_question_grows(e: Emitter, q: QuestionView)
    ensures
        e.out.is_prefix_of(emit_question(e, q).out),
{
    lemma_name_grows(e, q.name);
    let named = emit_name(e, q.name);
    lemma_prefix_more(e.out, named.out, u16_octets(q.qtype.code_spec()));
    lemma_prefix_more(
        e.out,
        named.out + u16_octets(q.qtype.code_spec()),
        u16_octets(q.qclass.code_spec()),
    );
}

proof fn lemma_record_grows(e: Emitter, r: RecordView)
    ensures
        e.out.is_prefix_of(emit_record(e, r).out),
{
    lemma_name_grows(e, r.name);
    let named = emit_name(e, r.name);
    let a = named.out + u16_octets(r.rtype);
    let b = a + u16_octets(r.rclass);
    let c = b + i32_octets(r.ttl);
    let d = c + u16_octets(data_octets(r.data).len() as u16);
    lemma_prefix_more(e.out, named.out, u16_octets(r.rtype));
    lemma_prefix_more(e.out, a, u16_octets(r.rclass));
    lemma_prefix_more(e.out, b, i32_octets(r.ttl));
    lemma_prefix_more(e.out, c, u16_octets(data_octets(r.data).len() as u16));
    lemma_prefix_more(e.out, d, data_octets(r.data));
}

proof fn lemma_questions_grow(e: Emitter, qs: Seq<QuestionView>)
    ensures
        e.out.is_prefix_of(emit_questions(e, qs).out),
    decreases qs.len(),
{
    if qs.len() == 0 {
        assert(e.out.subrange(0, e.out.len() as int) =~= e.out);
    } else {
        lemma_questions_grow(e, qs.drop_last());
        lemma_question_grows(emit_questions(e, qs.drop_last()), qs.last());
        lemma_prefix_chain(
            e.out,
            emit_questions(e, qs.drop_last()).out,
            emit_questions(e, qs).out,
        );
    }
}

proof fn lemma_records_grow(e: Emitter, rs: Seq<RecordView>)
    ensures
        e.out.is_prefix_of(emit_records(e, rs).out),
    decreases rs.len(),
{
    if rs.len() == 0 {
        assert(e.out.subrange(0, e.out.len() as int) =~= e.out);
    } else {
        lemma_records_grow(e, rs.drop_last());
        lemma_record_grows(emit_records(e, rs.drop_last()), rs.last());
        lemma_prefix_chain(e.out, emit_records(e, rs.drop_last()).out, emit_records(e, rs).out);
    }
}

/// Writing a question keeps the encoder on its way, and the question reads
/// back.
#[verifier::rlimit(40)]
proof fn lemma_question_back(msg: Seq<u8>, e: Emitter, q: QuestionView)
    requires
        question_ok(q),
        on_the_way(msg, e),
        holds_at(msg, 0, emit_question(e, q).out),
    ensures
        on_the_way(msg, emit_question(e, q)),
        parse_question(msg, e.out.len() as int) == Ok::<(QuestionView, int), Error>(
            (q, emit_question(e, q).out.len() as int),
        ),
{
    let named = emit_name(e, q.name);
    let t = u16_octets(q.qtype.code_spec());
    let c = u16_octets(q.qclass.code_spec());
    let after = emit_question(e, q);
    lemma_holds_behind(msg, named.out + t, c);
    lemma_holds_behind(msg, named.out, t);
    lemma_name_back(msg, e, q.name);
    let p = named.out.len() as int;
    lemma_u16_back(msg, p, q.qtype.code_spec());
    lemma_u16_back(msg, p + 2, q.qclass.code_spec());
    lemma_on_the_way_further(msg, named, after);
}

/// Writing a record keeps the encoder on its way, and the record reads back.
#[verifier::rlimit(40)]
proof fn lemma_record_back(msg: Seq<u8>, e: Emitter, r: RecordView)
    requires
        record_ok(r),
        on_the_way(msg, e),
        holds_at(msg, 0, emit_record(e, r).out),
    ensures
        on_the_way(msg, emit_record(e, r)),
        parse_record(msg, e.out.len() as int) == Ok::<(RecordView, int), Error>(
            (r, emit_record(e, r).out.len() as int),
        ),
{
    let named = emit_name(e, r.name);
    let data = data_octets(r.data);
    let f1 = u16_octets(r.rtype);
    let f2 = u16_octets(r.rclass);
    let f3 = i32_octets(r.ttl);
    let f4 = u16_octets(data.len() as u16);
    let after = emit_record(e, r);
    lemma_holds_behind(msg, named.out + f1 + f2 + f3 + f4, data);
    lemma_holds_behind(msg, named.out + f1 + f2 + f3, f4);
    lemma_holds_behind(msg, named.out + f1 + f2, f3);
    lemma_holds_behind(msg, named.out + f1, f2);
    lemma_holds_behind(msg, named.out, f1);
    lemma_name_back(msg, e, r.name);
    let p = named.out.len() as int;
    lemma_u16_back(msg, p, r.rtype);
    lemma_u16_back(msg, p + 2, r.rclass);
    lemma_i32_back(msg, p + 4, r.ttl);
    lemma_u16_back(msg, p + 8, data.len() as u16);
    assert(msg.subrange(p + 10, p + 10 + data.len()) == data);
    assert(parse_data(msg, p + 10, r.rtype, data.len() as int) == Ok::<(DataView, int), Error>(
        (r.data, p + 10 + data.len()),
    ));
    lemma_on_the_way_further(msg, named, after);
}

/// Writing a section of questions keeps the encoder on its way, and the
/// section reads back.
proof fn lemma_questions_back(msg: Seq<u8>, e: Emitter, qs: Seq<QuestionView>)
    requires
        forall|i: int| 0 <= i < qs.len() ==> question_ok(#[trigger] qs[i]),
        on_the_way(msg, e),
        holds_at(msg, 0, emit_questions(e, qs).out),
    ensures
        on_the_way(msg, emit_questions(e, qs)),
        parse_questions(msg, e.out.len() as int, qs.len()) == Ok::<(Seq<QuestionView>, int), Error>(
            (qs, emit_questions(e, qs).out.len() as int),
        ),
    decreases qs.len(),
{
    if qs.len() == 0 {
        assert(qs =~= Seq::<QuestionView>::empty());
    } else {
        let front = qs.drop_last();
        let mid = emit_questions(e, front);
        lemma_question_grows(mid, qs.last());
        lemma_holds_shorter(msg, mid.out, emit_questions(e, qs).out);
        assert forall|i: int| 0 <= i < front.len() implies question_ok(#[trigger] front[i]) by {
            assert(front[i] == qs[i]);
        }
        lemma_questions_back(msg, e, front);
        assert(question_ok(qs[qs.len() - 1]));
        lemma_question_back(msg, mid, qs.last());
        assert(front.push(qs.last()) =~= qs);
    }
}

/// Writing a section of records keeps the encoder on its way, and the
/// section reads back.
proof fn lemma_records_back(msg: Seq<u8>, e: Emitter, rs: Seq<RecordView>)
    requires
        forall|i: int| 0 <= i < rs.len() ==> record_ok(#[trigger] rs[i]),
        on_the_way(msg, e),
        holds_at(msg, 0, emit_records(e, rs).out),
    ensures
        on_the_way(msg, emit_records(e, rs)),
        parse_records(msg, e.out.len() as int, rs.len()) == Ok::<(Seq<RecordView>, int), Error>(
            (rs, emit_records(e, rs).out.len() as int),
        ),
    decreases rs.len(),
{
    if rs.len() == 0 {
        assert(rs =~= Seq::<RecordView>::empty());
    } else {
        let front = rs.drop_last();
        let mid = emit_records(e, front);
        lemma_record_grows(mid, rs.last());
        lemma_holds_shorter(msg, mid.out, emit_records(e, rs).out);
        assert forall|i: int| 0 <= i < front.len() implies record_ok(#[trigger] front[i]) by {
            assert(front[i] == rs[i]);
        }
        lemma_records_back(msg, e, front);
        assert(record_ok(rs[rs.len() - 1]));
        lemma_record_back(msg, mid, rs.last());
        assert(front.push(rs.last()) =~= rs);
    }
}

/// The header reads back: the two words, and the four lengths.
proof fn lemma_header_back(msg: Seq<u8>, m: MessageView)
    requires
        holds_at(msg, 0, header_octets(m)),
        m.questions.len() <= 0xffff,
        m.answers.len() <= 0xffff,
        m.name_server.len() <= 0xffff,
        m.additional.len() <= 0xffff,
    ensures
        msg.len() >= HEADER_LEN,
        header_octets(m).len() == HEADER_LEN,
        u16_at(msg, 0) == m.tx_id,
        u16_at(msg, 2) == m.flags,
        u16_at(msg, 4) == m.questions.len(),
        u16_at(msg, 6) == m.answers.len(),
        u16_at(msg, 8) == m.name_server.len(),
        u16_at(msg, 10) == m.additional.len(),
{
    let h1 = u16_octets(m.tx_id);
    let h2 = u16_octets(m.flags);
    let h3 = u16_octets(m.questions.len() as u16);
    let h4 = u16_octets(m.answers.len() as u16);
    let h5 = u16_octets(m.name_server.len() as u16);
    let h6 = u16_octets(m.additional.len() as u16);
    lemma_holds_behind(msg, h1 + h2 + h3 + h4 + h5, h6);
    lemma_holds_behind(msg, h1 + h2 + h3 + h4, h5);
    lemma_holds_behind(msg, h1 + h2 + h3, h4);
    lemma_holds_behind(msg, h1 + h2, h3);
    lemma_holds_behind(msg, h1, h2);
    lemma_u16_back(msg, 0, m.tx_id);
    lemma_u16_back(msg, 2, m.flags);
    lemma_u16_back(msg, 4, m.questions.len() as u16);
    lemma_u16_back(msg, 6, m.answers.len() as u16);
    lemma_u16_back(msg, 8, m.name_server.len() as u16);
    lemma_u16_back(msg, 10, m.additional.len() as u16);
}

/// The encoder after the header and `n` of the four sections of `m`.
pub open spec fn stage(m: MessageView, n: int) -> Emitter {
    let e0 = Emitter { out: header_octets(m), table: Seq::empty() };
    let e1 = emit_questions(e0, m.questions);
    let e2 = emit_records(e1, m.answers);
    let e3 = emit_records(e2, m.name_server);
    if n <= 0 {
        e0
    } else if n == 1 {
        e1
    } else if n == 2 {
        e2
    } else if n == 3 {
        e3
    } else {
        emit_records(e3, m.additional)
    }
}

/// The finished message starts with what the encoder had written after
/// each section.
proof fn lemma_stages_hold(m: MessageView)
    ensures
        stage(m, 4).out == emit_message(m),
        holds_at(emit_message(m), 0, stage(m, 0).out),
        holds_at(emit_message(m), 0, stage(m, 1).out),
        holds_at(emit_message(m), 0, stage(m, 2).out),
        holds_at(emit_message(m), 0, stage(m, 3).out),
        holds_at(emit_message(m), 0, stage(m, 4).out),
{
    reveal(emit_sections);
    let msg = emit_message(m);
    assert(msg.subrange(0, msg.len() as int) =~= msg);
    lemma_records_grow(stage(m, 3), m.additional);
    lemma_holds_shorter(msg, stage(m, 3).out, stage(m, 4).out);
    lemma_records_grow(stage(m, 2), m.name_server);
    lemma_holds_shorter(msg, stage(m, 2).out, stage(m, 3).out);
    lemma_records_grow(stage(m, 1), m.answers);
    lemma_holds_shorter(msg, stage(m, 1).out, stage(m, 2).out);
    lemma_questions_grow(stage(m, 0), m.questions);
    lemma_holds_shorter(msg, stage(m, 0).out, stage(m, 1).out);
}

/// Reading what was written gives back the message: for every message that
/// has an encoding, the encoding parses, and it parses to that message,
/// every item in its section and in its place.
#[verifier::rlimit(40)]
pub proof fn lemma_parse_emit(m: MessageView)
    requires
        message_ok(m),
    ensures
        parse_message(emit_message(m)) == Ok::<MessageView, Error>(m),
{
    reveal(parse_message);
    let msg = emit_message(m);
    lemma_stages_hold(m);
    lemma_header_back(msg, m);
    let e0 = stage(m, 0);
    let e1 = stage(m, 1);
    let e2 = stage(m, 2);
    let e3 = stage(m, 3);
    assert(e0 == Emitter { out: header_octets(m), table: Seq::empty() });
    assert(e1 == emit_questions(e0, m.questions));
    assert(e2 == emit_records(e1, m.answers));
    assert(e3 == emit_records(e2, m.name_server));
    assert(stage(m, 4) == emit_records(e3, m.additional));
    assert(on_the_way(msg, e0));
    lemma_questions_back(msg, e0, m.questions);
    lemma_records_back(msg, e1, m.answers);
    lemma_records_back(msg, e2, m.name_server);
    lemma_records_back(msg, e3, m.additional);
}

/// Writing what was read gives back the octets, when the octets are the
/// encoding of a message: every name in full where it first stands, as a
/// pointer to that place wherever it stands again, and nothing behind the
/// last record.
pub proof fn lemma_emit_parse(b: Seq<u8>, m: MessageView)
    requires
        message_ok(m),
        b == emit_message(m),
    ensures
        parse_message(b) is Ok,
        emit_message(parse_message(b)->Ok_0) == b,
{
    lemma_parse_emit(m);
}

/// What the table holds for `name` after one more entry: what it held
/// before, or else the new entry if that is for `name`.
pub proof fn lemma_lookup_push(table: Seq<(Seq<u8>, int)>, entry: (Seq<u8>, int), name: Seq<u8>)
    ensures
        lookup(table.push(entry), name) == match lookup(table, name) {
            Some(o) => Some(o),
            None => if entry.0 == name {
                Some(entry.1)
            } else {
                None
            },
        },
    decreases table.len(),
{
    let pushed = table.push(entry);
    if table.len() == 0 {
        assert(pushed[0] == entry);
        assert(pushed.skip(1) =~= Seq::<(Seq<u8>, int)>::empty());
    } else {
        assert(pushed[0] == table[0]);
        if table[0].0 != name {
            assert(pushed.skip(1) =~= table.skip(1).push(entry));
            lemma_lookup_push(table.skip(1), entry, name);
        }
    }
}

/// The first time a name is written, at an offset that a pointer can
/// express, it is written out in full and noted at that offset.
pub proof fn lemma_first_occurrence_is_noted(e: Emitter, name: Seq<u8>)
    requires
        e.out.len() < POINTER_LIMIT,
        lookup(e.table, name) is None,
    ensures
        emit_name(e, name).out == e.out + wire_name(name),
        lookup(emit_name(e, name).table, name) == Some(e.out.len() as int),
{
    lemma_lookup_push(e.table, (name, e.out.len() as int), name);
}

/// A name that is noted stays noted at the same offset, whatever name is
/// written next.
pub proof fn lemma_noted_stays(e: Emitter, other: Seq<u8>, name: Seq<u8>)
    requires
        lookup(e.table, name) is Some,
    ensures
        lookup(emit_name(e, other).table, name) == lookup(e.table, name),
{
    lemma_lookup_push(e.table, (other, e.out.len() as int), name);
}

/// A name that is noted is written as a pointer when it comes again: two
/// octets that spell the offset where it was first written out, with the
/// two high bits set.
pub proof fn lemma_second_occurrence_is_pointer(e: Emitter, name: Seq<u8>)
    requires
        lookup(e.table, name) is Some,
    ensures
        emit_name(e, name).out == e.out + wire_pointer(lookup(e.table, name)->0),
        wire_pointer(lookup(e.table, name)->0).len() == 2,
        emit_name(e, name).table == e.table,
{
}


/// A name that is noted stays noted at the same offset through any records
/// that are written.
pub proof fn lemma_noted_through_records(e: Emitter, rs: Seq<RecordView>, name: Seq<u8>)
    requires
        lookup(e.table, name) is Some,
    ensures
        lookup(emit_records(e, rs).table, name) == lookup(e.table, name),
    decreases rs.len(),
{
    if rs.len() > 0 {
        lemma_noted_through_records(e, rs.drop_last(), name);
        lemma_noted_stays(emit_records(e, rs.drop_last()), rs.last().name, name);
    }
}

/// A name that is noted stays noted at the same offset through any
/// questions that are written.
pub proof fn lemma_noted_through_questions(e: Emitter, qs: Seq<QuestionView>, name: Seq<u8>)
    requires
        lookup(e.table, name) is Some,
    ensures
        lookup(emit_questions(e, qs).table, name) == lookup(e.table, name),
    decreases qs.len(),
{
    if qs.len() > 0 {
        lemma_noted_through_questions(e, qs.drop_last(), name);
        lemma_noted_stays(emit_questions(e, qs.drop_last()), qs.last().name, name);
    }
}

/// The name of the first question of a section is noted where the section
/// starts, if a pointer can reach that place and the name was not noted
/// before.
pub proof fn lemma_first_question_noted(e: Emitter, qs: Seq<QuestionView>)
    requires
        qs.len() > 0,
        e.out.len() < POINTER_LIMIT,
        lookup(e.table, qs[0].name) is None,
    ensures
        lookup(emit_questions(e, qs).table, qs[0].name) == Some(e.out.len() as int),
    decreases qs.len(),
{
    let front = qs.drop_last();
    if front.len() == 0 {
        assert(emit_questions(e, front) == e);
        assert(qs.last() == qs[0]);
        lemma_first_occurrence_is_noted(e, qs[0].name);
    } else {
        assert(front[0] == qs[0]);
        lemma_first_question_noted(e, front);
        lemma_noted_stays(emit_questions(e, front), qs.last().name, qs[0].name);
    }
}

/// In every message, an answer that has the name of the first question is
/// written with two octets for its name: a pointer to the twelfth octet,
/// where the name of the first question stands.
pub proof fn lemma_answer_points_at_question(m: MessageView, k: int)
    requires
        m.questions.len() > 0,
        0 <= k < m.answers.len(),
        m.answers[k].name == m.questions[0].name,
    ensures
        ({
            let before = emit_records(stage(m, 1), m.answers.take(k));
            &&& emit_name(before, m.answers[k].name).out == before.out + wire_pointer(
                HEADER_LEN as int,
            )
            &&& emit_records(stage(m, 1), m.answers.take(k + 1)).table == before.table
        }),
{
    let name = m.questions[0].name;
    let e0 = stage(m, 0);
    assert(header_octets(m).len() == HEADER_LEN);
    lemma_first_question_noted(e0, m.questions);
    lemma_noted_through_records(stage(m, 1), m.answers.take(k), name);
    let before = emit_records(stage(m, 1), m.answers.take(k));
    lemma_second_occurrence_is_pointer(before, name);
    assert(m.answers.take(k + 1).drop_last() =~= m.answers.take(k));
    assert(m.answers.take(k + 1).last() == m.answers[k]);
}

} // verus!
