//! The values of a DNS message and their wire encoding.
use vstd::prelude::*;
use vstd::slice::slice_to_vec;
use vstd::utf8::encode_utf8;
use crate::wire::{be16, be32, push_be16, push_be32};

verus! {

/// Something with a wire encoding.
pub trait ToBytes {
    /// The bytes that encode this value.
    spec fn wire(&self) -> Seq<u8>;

    /// This value can be encoded without losing information in a length prefix.
    spec fn encodable(&self) -> bool;

    fn to_bytes(&self) -> (r: Vec<u8>)
        requires
            self.encodable(),
        ensures
            r@ == self.wire(),
    ;
}

/// A domain name as its labels, in order, without the empty terminator.
#[derive(Debug, Clone, PartialEq, Eq)]
pub struct DnsLabels(pub Vec<String>);

impl View for DnsLabels {
    type V = Seq<Seq<char>>;

    open spec fn view(&self) -> Seq<Seq<char>> {
        self.0@.map_values(|s: String| s@)
    }
}

/// One label on the wire: its byte length, then its UTF-8 bytes.
pub open spec fn label_wire(l: Seq<char>) -> Seq<u8> {
    seq![encode_utf8(l).len() as u8] + encode_utf8(l)
}

/// The labels on the wire, without the terminator.
pub open spec fn labels_body(ls: Seq<Seq<char>>) -> Seq<u8>
    decreases ls.len(),
{
    if ls.len() == 0 {
        Seq::empty()
    } else {
        label_wire(ls[0]) + labels_body(ls.drop_first())
    }
}

/// A name on the wire: its labels, then a zero byte.
pub open spec fn labels_wire(ls: Seq<Seq<char>>) -> Seq<u8> {
    labels_body(ls) + seq![0u8]
}

/// Every label's byte length fits in its one-byte prefix.
pub open spec fn labels_encodable(ls: Seq<Seq<char>>) -> bool {
    forall|i: int| 0 <= i < ls.len() ==> #[trigger] encode_utf8(ls[i]).len() <= 255
}

impl ToBytes for DnsLabels {
    open spec fn wire(&self) -> Seq<u8> {
        labels_wire(self@)
    }

    open spec fn encodable(&self) -> bool {
        labels_encodable(self@)
    }

    fn to_bytes(&self) -> (r: Vec<u8>) {
        let ghost ls = self@;
        let n = self.0.len();
        let mut bytes: Vec<u8> = Vec::new();
        let mut i: usize = 0;
        assert(ls.subrange(0, n as int) =~= ls);
        while i < n
            invariant
                0 <= i <= n,
                n == self.0@.len(),
                ls == self@,
                labels_encodable(ls),
                labels_body(ls) == bytes@ + labels_body(ls.subrange(i as int, n as int)),
            decreases n - i,
        {
            let label: &[u8] = self.0[i].as_str().as_bytes();
            assert(label@ == encode_utf8(ls[i as int]));
            assert(encode_utf8(ls[i as int]).len() <= 255);
            let mut chunk: Vec<u8> = slice_to_vec(label);
            bytes.push(label.len() as u8);
            bytes.append(&mut chunk);
            assert(ls.subrange(i as int, n as int).drop_first() =~= ls.subrange(i + 1, n as int));
            i = i + 1;
        }
        assert(ls.subrange(n as int, n as int) =~= Seq::<Seq<char>>::empty());
        assert(bytes@ =~= labels_body(ls));
        bytes.push(0u8);
        bytes
    }
}


/// A question: the name asked about, its query type and its query class.
#[derive(Debug, Clone, PartialEq, Eq)]
pub struct DnsQuestion {
    pub qname: DnsLabels,
    pub qtype: u16,
    pub qclass: u16,
}

/// The mathematical value of a question.
pub struct QuestionModel {
    pub qname: Seq<Seq<char>>,
    pub qtype: u16,
    pub qclass: u16,
}

impl View for DnsQuestion {
    type V = QuestionModel;

    open spec fn view(&self) -> QuestionModel {
        QuestionModel { qname: self.qname@, qtype: self.qtype, qclass: self.qclass }
    }
}

/// A question on the wire: name, type, class.
pub open spec fn question_wire(q: QuestionModel) -> Seq<u8> {
    labels_wire(q.qname) + be16(q.qtype) + be16(q.qclass)
}

impl ToBytes for DnsQuestion {
    open spec fn wire(&self) -> Seq<u8> {
        question_wire(self@)
    }

    open spec fn encodable(&self) -> bool {
        labels_encodable(self.qname@)
    }

    fn to_bytes(&self) -> (r: Vec<u8>) {
        let mut bytes = self.qname.to_bytes();
        push_be16(&mut bytes, self.qtype);
        push_be16(&mut bytes, self.qclass);
        bytes
    }
}

/// An answer record: name, type, class, time to live and its payload.
#[derive(Debug, Clone, PartialEq, Eq)]
pub struct DnsAnswer {
    pub name: DnsLabels,
    pub answer_type: u16,
    pub class: u16,
    pub ttl: u32,
    pub data: Vec<u8>,
}

/// The mathematical value of an answer record.
pub struct AnswerModel {
    pub name: Seq<Seq<char>>,
    pub answer_type: u16,
    pub class: u16,
    pub ttl: u32,
    pub data: Seq<u8>,
}

impl View for DnsAnswer {
    type V = AnswerModel;

    open spec fn view(&self) -> AnswerModel {
        AnswerModel {
            name: self.name@,
            answer_type: self.answer_type,
            class: self.class,
            ttl: self.ttl,
            data: self.data@,
        }
    }
}

/// An answer on the wire: name, type, class, ttl, payload length, payload.
pub open spec fn answer_wire(a: AnswerModel) -> Seq<u8> {
    labels_wire(a.name) + be16(a.answer_type) + be16(a.class) + be32(a.ttl) + be16(
        a.data.len() as u16,
    ) + a.data
}

/// The labels fit their prefixes and the payload length fits in 16 bits.
pub open spec fn answer_encodable(a: AnswerModel) -> bool {
    labels_encodable(a.name) && a.data.len() <= 0xffff
}

impl ToBytes for DnsAnswer {
    open spec fn wire(&self) -> Seq<u8> {
        answer_wire(self@)
    }

    open spec fn encodable(&self) -> bool {
        answer_encodable(self@)
    }

    fn to_bytes(&self) -> (r: Vec<u8>) {
        let mut bytes = self.name.to_bytes();
        push_be16(&mut bytes, self.answer_type);
        push_be16(&mut bytes, self.class);
        push_be32(&mut bytes, self.ttl);
        push_be16(&mut bytes, self.data.len() as u16);
        let mut payload: Vec<u8> = slice_to_vec(self.data.as_slice());
        bytes.append(&mut payload);
        bytes
    }
}

/// The fixed twelve-byte header. The flag fields hold, from the widest down:
/// `opcode` and `rcode` four bits, `z` three bits, the others one bit.
#[derive(Debug, Clone, Copy, PartialEq, Eq)]
pub struct DnsHeader {
    pub id: u16,
    pub qr: u8,
    pub opcode: u8,
    pub aa: u8,
    pub tc: u8,
    pub rd: u8,
    pub ra: u8,
    pub z: u8,
    pub rcode: u8,
    pub qdcount: u16,
    pub ancount: u16,
    pub nscount: u16,
    pub arcount: u16,
}

pub const ONE_BIT: u8 = 0x1;

pub const THREE_BITS: u8 = 0x7;

pub const FOUR_BITS: u8 = 0xf;

/// The third header byte: `qr`, `opcode`, `aa`, `tc`, `rd`, each cut to its width.
pub open spec fn flags_hi(h: DnsHeader) -> u8 {
    ((h.qr & ONE_BIT) << 7u8) | ((h.opcode & FOUR_BITS) << 3u8) | ((h.aa & ONE_BIT) << 2u8) | ((
    h.tc & ONE_BIT) << 1u8) | (h.rd & ONE_BIT)
}

/// The fourth header byte: `ra`, `z`, `rcode`, each cut to its width.
pub open spec fn flags_lo(h: DnsHeader) -> u8 {
    ((h.ra & ONE_BIT) << 7u8) | ((h.z & THREE_BITS) << 4u8) | (h.rcode & FOUR_BITS)
}

/// Every flag field fits in its width.
pub open spec fn header_fields_fit(h: DnsHeader) -> bool {
    h.qr <= 1 && h.opcode <= 15 && h.aa <= 1 && h.tc <= 1 && h.rd <= 1 && h.ra <= 1 && h.z <= 7
        && h.rcode <= 15
}

/// The header on the wire.
pub open spec fn header_wire(h: DnsHeader) -> Seq<u8> {
    be16(h.id) + seq![flags_hi(h), flags_lo(h)] + be16(h.qdcount) + be16(h.ancount) + be16(
        h.nscount,
    ) + be16(h.arcount)
}

impl ToBytes for DnsHeader {
    open spec fn wire(&self) -> Seq<u8> {
        header_wire(*self)
    }

    open spec fn encodable(&self) -> bool {
        true
    }

    fn to_bytes(&self) -> (r: Vec<u8>) {
        let mut bytes: Vec<u8> = Vec::new();
        push_be16(&mut bytes, self.id);
        bytes.push(
            ((self.qr & ONE_BIT) << 7u8) | ((self.opcode & FOUR_BITS) << 3u8) | ((self.aa & ONE_BIT)
                << 2u8) | ((self.tc & ONE_BIT) << 1u8) | (self.rd & ONE_BIT),
        );
        bytes.push(((self.ra & ONE_BIT) << 7u8) | ((self.z & THREE_BITS) << 4u8) | (self.rcode
            & FOUR_BITS));
        push_be16(&mut bytes, self.qdcount);
        push_be16(&mut bytes, self.ancount);
        push_be16(&mut bytes, self.nscount);
        push_be16(&mut bytes, self.arcount);
        assert(bytes@ =~= header_wire(*self));
        bytes
    }
}


/// A whole message: the header, then its questions, then its answers.
#[derive(Debug, Clone, PartialEq, Eq)]
pub struct DnsMessage {
    pub header: DnsHeader,
    pub questions: Vec<DnsQuestion>,
    pub answers: Vec<DnsAnswer>,
}

/// The mathematical value of a message.
pub struct MessageModel {
    pub header: DnsHeader,
    pub questions: Seq<QuestionModel>,
    pub answers: Seq<AnswerModel>,
}

impl View for DnsMessage {
    type V = MessageModel;

    open spec fn view(&self) -> MessageModel {
        MessageModel {
            header: self.header,
            questions: self.questions@.map_values(|q: DnsQuestion| q@),
            answers: self.answers@.map_values(|a: DnsAnswer| a@),
        }
    }
}

/// The questions on the wire, one after another.
pub open spec fn questions_wire(qs: Seq<QuestionModel>) -> Seq<u8>
    decreases qs.len(),
{
    if qs.len() == 0 {
        Seq::empty()
    } else {
        question_wire(qs[0]) + questions_wire(qs.drop_first())
    }
}

/// The answers on the wire, one after another.
pub open spec fn answers_wire(answers: Seq<AnswerModel>) -> Seq<u8>
    decreases answers.len(),
{
    if answers.len() == 0 {
        Seq::empty()
    } else {
        answer_wire(answers[0]) + answers_wire(answers.drop_first())
    }
}

/// A message on the wire: header, every question, every answer.
pub open spec fn message_wire(m: MessageModel) -> Seq<u8> {
    header_wire(m.header) + questions_wire(m.questions) + answers_wire(m.answers)
}

/// Every record of the message can be encoded.
pub open spec fn message_encodable(m: MessageModel) -> bool {
    (forall|i: int| 0 <= i < m.questions.len() ==> labels_encodable(#[trigger] m.questions[i].qname))
        && (forall|i: int| 0 <= i < m.answers.len() ==> answer_encodable(#[trigger] m.answers[i]))
}

impl ToBytes for DnsMessage {
    open spec fn wire(&self) -> Seq<u8> {
        message_wire(self@)
    }

    open spec fn encodable(&self) -> bool {
        message_encodable(self@)
    }

    fn to_bytes(&self) -> (r: Vec<u8>) {
        let ghost m = self@;
        let mut bytes = self.header.to_bytes();
        let nq = self.questions.len();
        let mut i: usize = 0;
        assert(m.questions.subrange(0, nq as int) =~= m.questions);
        while i < nq
            invariant
                0 <= i <= nq,
                nq == self.questions@.len(),
                m == self@,
                message_encodable(m),
                header_wire(m.header) + questions_wire(m.questions) == bytes@ + questions_wire(
                    m.questions.subrange(i as int, nq as int),
                ),
            decreases nq - i,
        {
            assert(m.questions[i as int] == self.questions@[i as int]@);
            let mut chunk = self.questions[i].to_bytes();
            bytes.append(&mut chunk);
            assert(m.questions.subrange(i as int, nq as int).drop_first() =~= m.questions.subrange(
                i + 1,
                nq as int,
            ));
            i = i + 1;
        }
        assert(m.questions.subrange(nq as int, nq as int) =~= Seq::<QuestionModel>::empty());
        let na = self.answers.len();
        let mut j: usize = 0;
        assert(m.answers.subrange(0, na as int) =~= m.answers);
        while j < na
            invariant
                0 <= j <= na,
                na == self.answers@.len(),
                m == self@,
                message_encodable(m),
                message_wire(m) == bytes@ + answers_wire(m.answers.subrange(j as int, na as int)),
            decreases na - j,
        {
            assert(m.answers[j as int] == self.answers@[j as int]@);
            let mut chunk = self.answers[j].to_bytes();
            bytes.append(&mut chunk);
            assert(m.answers.subrange(j as int, na as int).drop_first() =~= m.answers.subrange(
                j + 1,
                na as int,
            ));
            j = j + 1;
        }
        assert(m.answers.subrange(na as int, na as int) =~= Seq::<AnswerModel>::empty());
        assert(bytes@ =~= message_wire(m));
        bytes
    }
}

} // verus!
