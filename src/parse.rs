//! Decoding a message from bytes, driven by the counts in its header.
use vstd::prelude::*;
use vstd::slice::{slice_subrange, slice_to_vec};
use vstd::utf8::{decode_utf8, valid_utf8};
use crate::wire::{
    DnsError, from_be16, read_u16, read_u32, read_u8, spec_read_u16, spec_read_u32, spec_read_u8,
};
use crate::dns::{
    AnswerModel, DnsAnswer, DnsHeader, DnsLabels, DnsMessage, DnsQuestion, FOUR_BITS,
    MessageModel, ONE_BIT, QuestionModel, THREE_BITS,
};

verus! {

/// `acc` placed in front of what a later decoding step produced, or that step's error.
pub open spec fn prepend<T>(acc: Seq<T>, r: Result<(Seq<T>, int), DnsError>) -> Result<
    (Seq<T>, int),
    DnsError,
> {
    match r {
        Ok((rest, p)) => Ok((acc + rest, p)),
        Err(e) => Err(e),
    }
}

/// Decodes a name at `pos`: length-prefixed labels up to a zero length byte.
pub open spec fn spec_parse_labels(b: Seq<u8>, pos: int) -> Result<(Seq<Seq<char>>, int), DnsError>
    decreases b.len() - pos,
{
    if pos < 0 || pos >= b.len() {
        Err(DnsError::Truncated)
    } else {
        let n = b[pos] as int;
        if n == 0 {
            Ok((Seq::empty(), pos + 1))
        } else if pos + 1 + n > b.len() {
            Err(DnsError::Truncated)
        } else if !valid_utf8(b.subrange(pos + 1, pos + 1 + n)) {
            Err(DnsError::MalformedLabel)
        } else {
            prepend(seq![decode_utf8(b.subrange(pos + 1, pos + 1 + n))], spec_parse_labels(b, pos + 1 + n))
        }
    }
}

/// Relies on `String::from_utf8`: it accepts exactly the valid UTF-8 byte
/// sequences, and the string it returns holds the characters they encode.
#[verifier::external_body]
fn utf8_string(bytes: Vec<u8>) -> (r: Option<String>)
    ensures
        r is Some <==> valid_utf8(bytes@),
        r matches Some(s) ==> s@ == decode_utf8(bytes@),
{
    String::from_utf8(bytes).ok()
}

fn parse_labels(b: &[u8], pos: usize) -> (r: Result<(DnsLabels, usize), DnsError>)
    ensures
        r matches Ok((_, p)) ==> p <= b@.len(),
        match r {
            Ok((ls, p)) => spec_parse_labels(b@, pos as int) == Ok::<(Seq<Seq<char>>, int), DnsError>((ls@, p as int)),
            Err(e) => spec_parse_labels(b@, pos as int) == Err::<(Seq<Seq<char>>, int), DnsError>(e),
        },
{
    let mut labels: Vec<String> = Vec::new();
    let mut cur: usize = pos;
    assert(labels@.map_values(|s: String| s@) =~= Seq::<Seq<char>>::empty());
    loop
        invariant
            spec_parse_labels(b@, pos as int) == prepend(
                labels@.map_values(|s: String| s@),
                spec_parse_labels(b@, cur as int),
            ),
        decreases b@.len() - cur,
    {
        let ghost acc = labels@.map_values(|s: String| s@);
        let (n, after) = match read_u8(b, cur) {
            Ok(x) => x,
            Err(e) => {
                return Err(e);
            },
        };
        if n == 0 {
            assert(acc + Seq::<Seq<char>>::empty() =~= acc);
            return Ok((DnsLabels(labels), after));
        }
        let len = n as usize;
        if b.len() - after < len {
            return Err(DnsError::Truncated);
        }
        let chunk = slice_to_vec(slice_subrange(b, after, after + len));
        match utf8_string(chunk) {
            Some(s) => {
                let ghost tail = spec_parse_labels(b@, (after + len) as int);
                labels.push(s);
                assert(labels@.map_values(|s: String| s@) =~= acc + seq![s@]);
                proof {
                    if let Ok((rest, p)) = tail {
                        assert(acc + (seq![s@] + rest) =~= (acc + seq![s@]) + rest);
                    }
                }
                cur = after + len;
            },
            None => {
                return Err(DnsError::MalformedLabel);
            },
        }
    }
}


/// Decodes a question at `pos`: name, type, class.
pub open spec fn spec_parse_question(b: Seq<u8>, pos: int) -> Result<(QuestionModel, int), DnsError> {
    match spec_parse_labels(b, pos) {
        Err(e) => Err(e),
        Ok((qname, p1)) => match spec_read_u16(b, p1) {
            Err(e) => Err(e),
            Ok((qtype, p2)) => match spec_read_u16(b, p2) {
                Err(e) => Err(e),
                Ok((qclass, p3)) => Ok((QuestionModel { qname, qtype, qclass }, p3)),
            },
        },
    }
}

/// Decodes an answer at `pos`: name, type, class, ttl, payload length, payload.
pub open spec fn spec_parse_answer(b: Seq<u8>, pos: int) -> Result<(AnswerModel, int), DnsError> {
    match spec_parse_labels(b, pos) {
        Err(e) => Err(e),
        Ok((name, p1)) => match spec_read_u16(b, p1) {
            Err(e) => Err(e),
            Ok((answer_type, p2)) => match spec_read_u16(b, p2) {
                Err(e) => Err(e),
                Ok((class, p3)) => match spec_read_u32(b, p3) {
                    Err(e) => Err(e),
                    Ok((ttl, p4)) => match spec_read_u16(b, p4) {
                        Err(e) => Err(e),
                        Ok((len, p5)) => if p5 + len > b.len() {
                            Err(DnsError::Truncated)
                        } else {
                            Ok((
                                AnswerModel {
                                    name,
                                    answer_type,
                                    class,
                                    ttl,
                                    data: b.subrange(p5, p5 + len),
                                },
                                p5 + len,
                            ))
                        },
                    },
                },
            },
        },
    }
}

fn parse_question(b: &[u8], pos: usize) -> (r: Result<(DnsQuestion, usize), DnsError>)
    ensures
        r matches Ok((_, p)) ==> p <= b@.len(),
        match r {
            Ok((q, p)) => spec_parse_question(b@, pos as int) == Ok::<(QuestionModel, int), DnsError>((q@, p as int)),
            Err(e) => spec_parse_question(b@, pos as int) == Err::<(QuestionModel, int), DnsError>(e),
        },
{
    let (qname, p1) = match parse_labels(b, pos) {
        Ok(x) => x,
        Err(e) => {
            return Err(e);
        },
    };
    let (qtype, p2) = match read_u16(b, p1) {
        Ok(x) => x,
        Err(e) => {
            return Err(e);
        },
    };
    let (qclass, p3) = match read_u16(b, p2) {
        Ok(x) => x,
        Err(e) => {
            return Err(e);
        },
    };
    Ok((DnsQuestion { qname, qtype, qclass }, p3))
}

fn parse_answer(b: &[u8], pos: usize) -> (r: Result<(DnsAnswer, usize), DnsError>)
    ensures
        r matches Ok((_, p)) ==> p <= b@.len(),
        match r {
            Ok((a, p)) => spec_parse_answer(b@, pos as int) == Ok::<(AnswerModel, int), DnsError>((a@, p as int)),
            Err(e) => spec_parse_answer(b@, pos as int) == Err::<(AnswerModel, int), DnsError>(e),
        },
{
    let (name, p1) = match parse_labels(b, pos) {
        Ok(x) => x,
        Err(e) => {
            return Err(e);
        },
    };
    let (answer_type, p2) = match read_u16(b, p1) {
        Ok(x) => x,
        Err(e) => {
            return Err(e);
        },
    };
    let (class, p3) = match read_u16(b, p2) {
        Ok(x) => x,
        Err(e) => {
            return Err(e);
        },
    };
    let (ttl, p4) = match read_u32(b, p3) {
        Ok(x) => x,
        Err(e) => {
            return Err(e);
        },
    };
    let (len, p5) = match read_u16(b, p4) {
        Ok(x) => x,
        Err(e) => {
            return Err(e);
        },
    };
    if b.len() - p5 < len as usize {
        return Err(DnsError::Truncated);
    }
    let end = p5 + len as usize;
    let data = slice_to_vec(slice_subrange(b, p5, end));
    Ok((DnsAnswer { name, answer_type, class, ttl, data }, end))
}

/// Decodes `n` questions, one after another, from `pos`.
pub open spec fn spec_parse_questions(b: Seq<u8>, pos: int, n: nat) -> Result<
    (Seq<QuestionModel>, int),
    DnsError,
>
    decreases n,
{
    if n == 0 {
        Ok((Seq::empty(), pos))
    } else {
        match spec_parse_question(b, pos) {
            Err(e) => Err(e),
            Ok((q, p)) => prepend(seq![q], spec_parse_questions(b, p, (n - 1) as nat)),
        }
    }
}

/// Decodes `n` answers, one after another, from `pos`.
pub open spec fn spec_parse_answers(b: Seq<u8>, pos: int, n: nat) -> Result<
    (Seq<AnswerModel>, int),
    DnsError,
>
    decreases n,
{
    if n == 0 {
        Ok((Seq::empty(), pos))
    } else {
        match spec_parse_answer(b, pos) {
            Err(e) => Err(e),
            Ok((a, p)) => prepend(seq![a], spec_parse_answers(b, p, (n - 1) as nat)),
        }
    }
}

fn parse_questions(b: &[u8], pos: usize, n: u16) -> (r: Result<(Vec<DnsQuestion>, usize), DnsError>)
    requires
        pos <= b@.len(),
    ensures
        r matches Ok((qs, _)) ==> qs@.len() == n,
        r matches Ok((_, p)) ==> p <= b@.len(),
        match r {
            Ok((qs, p)) => spec_parse_questions(b@, pos as int, n as nat) == Ok::<
                (Seq<QuestionModel>, int),
                DnsError,
            >((qs@.map_values(|q: DnsQuestion| q@), p as int)),
            Err(e) => spec_parse_questions(b@, pos as int, n as nat) == Err::<
                (Seq<QuestionModel>, int),
                DnsError,
            >(e),
        },
{
    let mut qs: Vec<DnsQuestion> = Vec::new();
    let mut cur: usize = pos;
    let mut left: u16 = n;
    assert(qs@.map_values(|q: DnsQuestion| q@) =~= Seq::<QuestionModel>::empty());
    while left > 0
        invariant
            spec_parse_questions(b@, pos as int, n as nat) == prepend(
                qs@.map_values(|q: DnsQuestion| q@),
                spec_parse_questions(b@, cur as int, left as nat),
            ),
            cur <= b@.len(),
            qs@.len() + left == n,
        decreases left,
    {
        let ghost acc = qs@.map_values(|q: DnsQuestion| q@);
        let (q, p) = match parse_question(b, cur) {
            Ok(x) => x,
            Err(e) => {
                return Err(e);
            },
        };
        let ghost tail = spec_parse_questions(b@, p as int, (left - 1) as nat);
        let ghost qv = q@;
        qs.push(q);
        assert(qs@.map_values(|q: DnsQuestion| q@) =~= acc + seq![qv]);
        proof {
            if let Ok((rest, p)) = tail {
                assert(acc + (seq![qv] + rest) =~= (acc + seq![qv]) + rest);
            }
        }
        cur = p;
        left = left - 1;
    }
    assert(qs@.map_values(|q: DnsQuestion| q@) + Seq::<QuestionModel>::empty() =~= qs@.map_values(
        |q: DnsQuestion| q@,
    ));
    Ok((qs, cur))
}

fn parse_answers(b: &[u8], pos: usize, n: u16) -> (r: Result<(Vec<DnsAnswer>, usize), DnsError>)
    requires
        pos <= b@.len(),
    ensures
        r matches Ok((answers, _)) ==> answers@.len() == n,
        r matches Ok((_, p)) ==> p <= b@.len(),
        match r {
            Ok((answers, p)) => spec_parse_answers(b@, pos as int, n as nat) == Ok::<
                (Seq<AnswerModel>, int),
                DnsError,
            >((answers@.map_values(|a: DnsAnswer| a@), p as int)),
            Err(e) => spec_parse_answers(b@, pos as int, n as nat) == Err::<
                (Seq<AnswerModel>, int),
                DnsError,
            >(e),
        },
{
    let mut answers: Vec<DnsAnswer> = Vec::new();
    let mut cur: usize = pos;
    let mut left: u16 = n;
    assert(answers@.map_values(|a: DnsAnswer| a@) =~= Seq::<AnswerModel>::empty());
    while left > 0
        invariant
            spec_parse_answers(b@, pos as int, n as nat) == prepend(
                answers@.map_values(|a: DnsAnswer| a@),
                spec_parse_answers(b@, cur as int, left as nat),
            ),
            cur <= b@.len(),
            answers@.len() + left == n,
        decreases left,
    {
        let ghost acc = answers@.map_values(|a: DnsAnswer| a@);
        let (a, p) = match parse_answer(b, cur) {
            Ok(x) => x,
            Err(e) => {
                return Err(e);
            },
        };
        let ghost tail = spec_parse_answers(b@, p as int, (left - 1) as nat);
        let ghost av = a@;
        answers.push(a);
        assert(answers@.map_values(|a: DnsAnswer| a@) =~= acc + seq![av]);
        proof {
            if let Ok((rest, p)) = tail {
                assert(acc + (seq![av] + rest) =~= (acc + seq![av]) + rest);
            }
        }
        cur = p;
        left = left - 1;
    }
    assert(answers@.map_values(|a: DnsAnswer| a@) + Seq::<AnswerModel>::empty()
        =~= answers@.map_values(|a: DnsAnswer| a@));
    Ok((answers, cur))
}


/// The header whose twelve bytes start at `pos`.
pub open spec fn header_at(b: Seq<u8>, pos: int) -> DnsHeader {
    DnsHeader {
        id: from_be16(b[pos], b[pos + 1]),
        qr: b[pos + 2] >> 7u8,
        opcode: (b[pos + 2] >> 3u8) & FOUR_BITS,
        aa: (b[pos + 2] >> 2u8) & ONE_BIT,
        tc: (b[pos + 2] >> 1u8) & ONE_BIT,
        rd: b[pos + 2] & ONE_BIT,
        ra: b[pos + 3] >> 7u8,
        z: (b[pos + 3] >> 4u8) & THREE_BITS,
        rcode: b[pos + 3] & FOUR_BITS,
        qdcount: from_be16(b[pos + 4], b[pos + 5]),
        ancount: from_be16(b[pos + 6], b[pos + 7]),
        nscount: from_be16(b[pos + 8], b[pos + 9]),
        arcount: from_be16(b[pos + 10], b[pos + 11]),
    }
}

/// Decodes a header at `pos`; fewer than twelve remaining bytes are `Truncated`.
pub open spec fn spec_parse_header(b: Seq<u8>, pos: int) -> Result<(DnsHeader, int), DnsError> {
    if 0 <= pos && pos + 12 <= b.len() {
        Ok((header_at(b, pos), pos + 12))
    } else {
        Err(DnsError::Truncated)
    }
}

/// Decodes a message from the start of `b`: the header, then exactly as many
/// questions and answers as its counts declare. The second component is where
/// decoding stopped; bytes after it are left alone.
pub open spec fn spec_parse_message(b: Seq<u8>) -> Result<(MessageModel, int), DnsError> {
    match spec_parse_header(b, 0) {
        Err(e) => Err(e),
        Ok((header, p1)) => match spec_parse_questions(b, p1, header.qdcount as nat) {
            Err(e) => Err(e),
            Ok((questions, p2)) => match spec_parse_answers(b, p2, header.ancount as nat) {
                Err(e) => Err(e),
                Ok((answers, p3)) => Ok((MessageModel { header, questions, answers }, p3)),
            },
        },
    }
}

fn parse_header(b: &[u8], pos: usize) -> (r: Result<(DnsHeader, usize), DnsError>)
    ensures
        r matches Ok((_, p)) ==> p <= b@.len(),
        match r {
            Ok((h, p)) => spec_parse_header(b@, pos as int) == Ok::<(DnsHeader, int), DnsError>((h, p as int)),
            Err(e) => spec_parse_header(b@, pos as int) == Err::<(DnsHeader, int), DnsError>(e),
        },
{
    if pos > b.len() || b.len() - pos < 12 {
        return Err(DnsError::Truncated);
    }
    let (id, _) = match read_u16(b, pos) { Ok(x) => x, Err(e) => { return Err(e); } };
    let hi = b[pos + 2];
    let lo = b[pos + 3];
    let (qdcount, _) = match read_u16(b, pos + 4) { Ok(x) => x, Err(e) => { return Err(e); } };
    let (ancount, _) = match read_u16(b, pos + 6) { Ok(x) => x, Err(e) => { return Err(e); } };
    let (nscount, _) = match read_u16(b, pos + 8) { Ok(x) => x, Err(e) => { return Err(e); } };
    let (arcount, _) = match read_u16(b, pos + 10) { Ok(x) => x, Err(e) => { return Err(e); } };
    let h = DnsHeader {
        id,
        qr: hi >> 7u8,
        opcode: (hi >> 3u8) & FOUR_BITS,
        aa: (hi >> 2u8) & ONE_BIT,
        tc: (hi >> 1u8) & ONE_BIT,
        rd: hi & ONE_BIT,
        ra: lo >> 7u8,
        z: (lo >> 4u8) & THREE_BITS,
        rcode: lo & FOUR_BITS,
        qdcount,
        ancount,
        nscount,
        arcount,
    };
    Ok((h, pos + 12))
}

/// Decodes the header at the start of `input`, and hands back the bytes after it.
pub fn dns_header(input: &[u8]) -> (r: Result<(&[u8], DnsHeader), DnsError>)
    ensures
        match r {
            Ok((rest, h)) => spec_parse_header(input@, 0) == Ok::<(DnsHeader, int), DnsError>((h, 12))
                && rest@ == input@.subrange(12, input@.len() as int),
            Err(e) => spec_parse_header(input@, 0) == Err::<(DnsHeader, int), DnsError>(e),
        },
        r is Err <==> input@.len() < 12,
{
    match parse_header(input, 0) {
        Ok((h, p)) => Ok((slice_subrange(input, p, input.len()), h)),
        Err(e) => Err(e),
    }
}

/// Decodes a message at the start of `input`, and hands back the bytes that
/// its header's counts left unread.
pub fn dns_msg(input: &[u8]) -> (r: Result<(&[u8], DnsMessage), DnsError>)
    ensures
        match r {
            Ok((rest, m)) => exists|p: int|
                spec_parse_message(input@) == Ok::<(MessageModel, int), DnsError>((m@, p))
                    && #[trigger] input@.subrange(p, input@.len() as int) == rest@,
            Err(e) => spec_parse_message(input@) == Err::<(MessageModel, int), DnsError>(e),
        },
        r matches Ok((_, m)) ==> m.questions@.len() == m.header.qdcount
            && m.answers@.len() == m.header.ancount,
{
    let (header, p1) = match parse_header(input, 0) {
        Ok(x) => x,
        Err(e) => {
            return Err(e);
        },
    };
    let (questions, p2) = match parse_questions(input, p1, header.qdcount) {
        Ok(x) => x,
        Err(e) => {
            return Err(e);
        },
    };
    let (answers, p3) = match parse_answers(input, p2, header.ancount) {
        Ok(x) => x,
        Err(e) => {
            return Err(e);
        },
    };
    let m = DnsMessage { header, questions, answers };
    assert(spec_parse_message(input@) == Ok::<(MessageModel, int), DnsError>((m@, p3 as int)));
    Ok((slice_subrange(input, p3, input.len()), m))
}

} // verus!
