//! What holds across encoding and decoding.
use vstd::prelude::*;
use vstd::utf8::{encode_utf8, encode_utf8_decode_utf8, encode_utf8_valid_utf8};
use crate::wire::{be16, be32, lemma_be16_round_trip, lemma_be32_round_trip};
use crate::dns::{
    AnswerModel, DnsHeader, MessageModel, QuestionModel, answer_wire, answers_wire, flags_hi,
    flags_lo, header_fields_fit, header_wire, labels_wire, message_wire,
    question_wire, questions_wire,
};
use crate::parse::{
    header_at, spec_parse_answer, spec_parse_answers, spec_parse_header, spec_parse_labels,
    spec_parse_message, spec_parse_question, spec_parse_questions,
};

verus! {

/// Every label is non-empty and its UTF-8 bytes fit a one-byte length.
pub open spec fn labels_well_formed(ls: Seq<Seq<char>>) -> bool {
    forall|i: int| 0 <= i < ls.len() ==> 1 <= #[trigger] encode_utf8(ls[i]).len() <= 255
}

/// A message that decodes back to itself: flag fields fit their widths, the
/// question and answer counts match the records, every label is well formed
/// and every payload length fits in 16 bits.
pub open spec fn message_well_formed(m: MessageModel) -> bool {
    &&& header_fields_fit(m.header)
    &&& m.header.qdcount == m.questions.len()
    &&& m.header.ancount == m.answers.len()
    &&& forall|i: int| 0 <= i < m.questions.len() ==> labels_well_formed(#[trigger] m.questions[i].qname)
    &&& forall|i: int| 0 <= i < m.answers.len() ==> {
        &&& labels_well_formed(#[trigger] m.answers[i].name)
        &&& m.answers[i].data.len() <= 0xffff
    }
}

/// `w` stands in `b` from `p` on.
pub open spec fn placed(b: Seq<u8>, p: int, w: Seq<u8>) -> bool {
    0 <= p && p + w.len() <= b.len() && b.subrange(p, p + w.len()) == w
}

proof fn lemma_split(b: Seq<u8>, p: int, x: Seq<u8>, y: Seq<u8>)
    requires
        placed(b, p, x + y),
    ensures
        placed(b, p, x),
        placed(b, p + x.len(), y),
{
    let w = b.subrange(p, p + (x + y).len());
    assert(b.subrange(p, p + x.len()) =~= w.subrange(0, x.len() as int));
    assert(w.subrange(0, x.len() as int) =~= x);
    assert(b.subrange(p + x.len(), p + x.len() + y.len()) =~= w.subrange(
        x.len() as int,
        (x + y).len() as int,
    ));
    assert(w.subrange(x.len() as int, (x + y).len() as int) =~= y);
}

proof fn lemma_byte(b: Seq<u8>, p: int, w: Seq<u8>, k: int)
    requires
        placed(b, p, w),
        0 <= k < w.len(),
    ensures
        b[p + k] == w[k],
{
    assert(b.subrange(p, p + w.len())[k] == b[p + k]);
}

proof fn lemma_u16(b: Seq<u8>, p: int, v: u16)
    requires
        placed(b, p, be16(v)),
    ensures
        crate::wire::spec_read_u16(b, p) == Ok::<(u16, int), crate::wire::DnsError>((v, p + 2)),
{
    lemma_byte(b, p, be16(v), 0);
    lemma_byte(b, p, be16(v), 1);
    lemma_be16_round_trip(v);
}

proof fn lemma_u32(b: Seq<u8>, p: int, v: u32)
    requires
        placed(b, p, be32(v)),
    ensures
        crate::wire::spec_read_u32(b, p) == Ok::<(u32, int), crate::wire::DnsError>((v, p + 4)),
{
    lemma_byte(b, p, be32(v), 0);
    lemma_byte(b, p, be32(v), 1);
    lemma_byte(b, p, be32(v), 2);
    lemma_byte(b, p, be32(v), 3);
    lemma_be32_round_trip(v);
}

proof fn lemma_labels(ls: Seq<Seq<char>>, b: Seq<u8>, p: int)
    requires
        labels_well_formed(ls),
        placed(b, p, labels_wire(ls)),
    ensures
        spec_parse_labels(b, p) == Ok::<(Seq<Seq<char>>, int), crate::wire::DnsError>(
            (ls, p + labels_wire(ls).len()),
        ),
    decreases ls.len(),
{
    if ls.len() == 0 {
        assert(labels_wire(ls) =~= seq![0u8]);
        lemma_byte(b, p, labels_wire(ls), 0);
        assert(b[p + 0] == 0);
        assert(ls =~= Seq::<Seq<char>>::empty());
    } else {
        let e = encode_utf8(ls[0]);
        let rest = ls.drop_first();
        assert(1 <= encode_utf8(ls[0]).len() <= 255);
        assert(labels_wire(ls) =~= seq![e.len() as u8] + (e + labels_wire(rest)));
        lemma_split(b, p, seq![e.len() as u8], e + labels_wire(rest));
        lemma_byte(b, p, seq![e.len() as u8], 0);
        assert(b[p + 0] == e.len() as u8);
        assert(b[p] as int == e.len());
        lemma_split(b, p + 1, e, labels_wire(rest));
        encode_utf8_valid_utf8(ls[0]);
        encode_utf8_decode_utf8(ls[0]);
        assert forall|i: int| 0 <= i < rest.len() implies 1 <= #[trigger] encode_utf8(rest[i]).len()
            <= 255 by {
            assert(rest[i] == ls[i + 1]);
        }
        lemma_labels(rest, b, p + 1 + e.len());
        assert(seq![ls[0]] + rest =~= ls);
    }
}

proof fn lemma_question(q: QuestionModel, b: Seq<u8>, p: int)
    requires
        labels_well_formed(q.qname),
        placed(b, p, question_wire(q)),
    ensures
        spec_parse_question(b, p) == Ok::<(QuestionModel, int), crate::wire::DnsError>(
            (q, p + question_wire(q).len()),
        ),
{
    let l = labels_wire(q.qname);
    assert(question_wire(q) =~= l + (be16(q.qtype) + be16(q.qclass)));
    lemma_split(b, p, l, be16(q.qtype) + be16(q.qclass));
    lemma_split(b, p + l.len(), be16(q.qtype), be16(q.qclass));
    lemma_labels(q.qname, b, p);
    lemma_u16(b, p + l.len(), q.qtype);
    lemma_u16(b, p + l.len() + 2, q.qclass);
}

proof fn lemma_answer(a: AnswerModel, b: Seq<u8>, p: int)
    requires
        labels_well_formed(a.name),
        a.data.len() <= 0xffff,
        placed(b, p, answer_wire(a)),
    ensures
        spec_parse_answer(b, p) == Ok::<(AnswerModel, int), crate::wire::DnsError>(
            (a, p + answer_wire(a).len()),
        ),
{
    let l = labels_wire(a.name);
    let len = a.data.len() as u16;
    let t = be16(a.answer_type);
    let c = be16(a.class);
    let ttl = be32(a.ttl);
    let n = be16(len);
    assert(answer_wire(a) =~= l + (t + (c + (ttl + (n + a.data)))));
    lemma_split(b, p, l, t + (c + (ttl + (n + a.data))));
    lemma_split(b, p + l.len(), t, c + (ttl + (n + a.data)));
    lemma_split(b, p + l.len() + 2, c, ttl + (n + a.data));
    lemma_split(b, p + l.len() + 4, ttl, n + a.data);
    lemma_split(b, p + l.len() + 8, n, a.data);
    lemma_labels(a.name, b, p);
    lemma_u16(b, p + l.len(), a.answer_type);
    lemma_u16(b, p + l.len() + 2, a.class);
    lemma_u32(b, p + l.len() + 4, a.ttl);
    lemma_u16(b, p + l.len() + 8, len);
    assert(len as int == a.data.len());
}

proof fn lemma_questions(qs: Seq<QuestionModel>, b: Seq<u8>, p: int)
    requires
        forall|i: int| 0 <= i < qs.len() ==> labels_well_formed(#[trigger] qs[i].qname),
        placed(b, p, questions_wire(qs)),
    ensures
        spec_parse_questions(b, p, qs.len()) == Ok::<(Seq<QuestionModel>, int), crate::wire::DnsError>(
            (qs, p + questions_wire(qs).len()),
        ),
    decreases qs.len(),
{
    if qs.len() == 0 {
        assert(qs =~= Seq::<QuestionModel>::empty());
    } else {
        let rest = qs.drop_first();
        lemma_split(b, p, question_wire(qs[0]), questions_wire(rest));
        assert(labels_well_formed(qs[0].qname));
        lemma_question(qs[0], b, p);
        assert forall|i: int| 0 <= i < rest.len() implies labels_well_formed(#[trigger] rest[i].qname) by {
            assert(rest[i] == qs[i + 1]);
        }
        lemma_questions(rest, b, p + question_wire(qs[0]).len());
        assert(seq![qs[0]] + rest =~= qs);
    }
}

proof fn lemma_answers(answers: Seq<AnswerModel>, b: Seq<u8>, p: int)
    requires
        forall|i: int| 0 <= i < answers.len() ==> {
            &&& labels_well_formed(#[trigger] answers[i].name)
            &&& answers[i].data.len() <= 0xffff
        },
        placed(b, p, answers_wire(answers)),
    ensures
        spec_parse_answers(b, p, answers.len()) == Ok::<(Seq<AnswerModel>, int), crate::wire::DnsError>(
            (answers, p + answers_wire(answers).len()),
        ),
    decreases answers.len(),
{
    if answers.len() == 0 {
        assert(answers =~= Seq::<AnswerModel>::empty());
    } else {
        let rest = answers.drop_first();
        lemma_split(b, p, answer_wire(answers[0]), answers_wire(rest));
        assert(labels_well_formed(answers[0].name));
        lemma_answer(answers[0], b, p);
        assert forall|i: int| 0 <= i < rest.len() implies {
            &&& labels_well_formed(#[trigger] rest[i].name)
            &&& rest[i].data.len() <= 0xffff
        } by {
            assert(rest[i] == answers[i + 1]);
        }
        lemma_answers(rest, b, p + answer_wire(answers[0]).len());
        assert(seq![answers[0]] + rest =~= answers);
    }
}

proof fn lemma_flags(qr: u8, opcode: u8, aa: u8, tc: u8, rd: u8, ra: u8, z: u8, rcode: u8)
    by (bit_vector)
    requires
        qr <= 1, opcode <= 15, aa <= 1, tc <= 1, rd <= 1, ra <= 1, z <= 7, rcode <= 15,
    ensures
        (((qr & 1) << 7u8) | ((opcode & 15) << 3u8) | ((aa & 1) << 2u8) | ((tc & 1) << 1u8) | (rd & 1)) >> 7u8 == qr,
        ((((qr & 1) << 7u8) | ((opcode & 15) << 3u8) | ((aa & 1) << 2u8) | ((tc & 1) << 1u8) | (rd & 1)) >> 3u8) & 15 == opcode,
        ((((qr & 1) << 7u8) | ((opcode & 15) << 3u8) | ((aa & 1) << 2u8) | ((tc & 1) << 1u8) | (rd & 1)) >> 2u8) & 1 == aa,
        ((((qr & 1) << 7u8) | ((opcode & 15) << 3u8) | ((aa & 1) << 2u8) | ((tc & 1) << 1u8) | (rd & 1)) >> 1u8) & 1 == tc,
        (((qr & 1) << 7u8) | ((opcode & 15) << 3u8) | ((aa & 1) << 2u8) | ((tc & 1) << 1u8) | (rd & 1)) & 1 == rd,
        (((ra & 1) << 7u8) | ((z & 7) << 4u8) | (rcode & 15)) >> 7u8 == ra,
        ((((ra & 1) << 7u8) | ((z & 7) << 4u8) | (rcode & 15)) >> 4u8) & 7 == z,
        (((ra & 1) << 7u8) | ((z & 7) << 4u8) | (rcode & 15)) & 15 == rcode,
{
}

proof fn lemma_header(h: DnsHeader, b: Seq<u8>)
    requires
        header_fields_fit(h),
        placed(b, 0, header_wire(h)),
    ensures
        spec_parse_header(b, 0) == Ok::<(DnsHeader, int), crate::wire::DnsError>((h, 12)),
{
    let w = header_wire(h);
    assert(w =~= seq![
        be16(h.id)[0], be16(h.id)[1], flags_hi(h), flags_lo(h),
        be16(h.qdcount)[0], be16(h.qdcount)[1], be16(h.ancount)[0], be16(h.ancount)[1],
        be16(h.nscount)[0], be16(h.nscount)[1], be16(h.arcount)[0], be16(h.arcount)[1],
    ]);
    assert forall|k: int| 0 <= k < 12 implies b[k] == #[trigger] w[k] by {
        lemma_byte(b, 0, w, k);
    }
    lemma_be16_round_trip(h.id);
    lemma_be16_round_trip(h.qdcount);
    lemma_be16_round_trip(h.ancount);
    lemma_be16_round_trip(h.nscount);
    lemma_be16_round_trip(h.arcount);
    lemma_flags(h.qr, h.opcode, h.aa, h.tc, h.rd, h.ra, h.z, h.rcode);
    assert(w[2] == flags_hi(h));
    assert(w[3] == flags_lo(h));
    assert(header_at(b, 0) == h);
}

proof fn lemma_message_parts(m: MessageModel, b: Seq<u8>)
    requires
        message_well_formed(m),
        b == header_wire(m.header) + questions_wire(m.questions) + answers_wire(m.answers),
    ensures
        spec_parse_header(b, 0) == Ok::<(DnsHeader, int), crate::wire::DnsError>((m.header, 12)),
        spec_parse_questions(b, 12, m.questions.len()) == Ok::<(Seq<QuestionModel>, int), crate::wire::DnsError>(
            (m.questions, 12 + questions_wire(m.questions).len() as int),
        ),
        spec_parse_answers(b, 12 + questions_wire(m.questions).len() as int, m.answers.len()) == Ok::<
            (Seq<AnswerModel>, int),
            crate::wire::DnsError,
        >((m.answers, b.len() as int)),
{
    let hw = header_wire(m.header);
    let qw = questions_wire(m.questions);
    let aw = answers_wire(m.answers);
    assert(b.subrange(0, b.len() as int) =~= b);
    assert(b =~= hw + (qw + aw));
    lemma_split(b, 0, hw, qw + aw);
    lemma_split(b, hw.len() as int, qw, aw);
    assert(hw.len() == 12);
    lemma_header(m.header, b);
    lemma_questions(m.questions, b, 12);
    lemma_answers(m.answers, b, 12 + qw.len() as int);
}

/// Decoding the encoding of a well-formed message gives the message back,
/// and decoding stops exactly at the end of the encoding.
pub proof fn lemma_message_round_trip(m: MessageModel)
    requires
        message_well_formed(m),
    ensures
        spec_parse_message(message_wire(m)) == Ok::<(MessageModel, int), crate::wire::DnsError>(
            (m, message_wire(m).len() as int),
        ),
{
    let b = message_wire(m);
    lemma_message_parts(m, b);
}

} // verus!
