//! The server's reply to a decoded request, and one request handled from
//! bytes to bytes.
use vstd::prelude::*;
use vstd::utf8::{encode_scalar, encode_utf8};
use crate::dns::{
    AnswerModel, DnsAnswer, DnsHeader, DnsLabels, DnsMessage, DnsQuestion, MessageModel,
    QuestionModel, ToBytes, message_wire,
};
use crate::parse::{dns_msg, spec_parse_message};
use crate::wire::DnsError;

verus! {

/// The name that every response asks about and answers for.
pub open spec fn canned_name() -> Seq<Seq<char>> {
    seq!["codecrafters"@, "io"@]
}

/// The response header for a request header: same id, opcode and
/// recursion-desired flag; marked as a response; `rcode` 0 for a standard
/// query and 4 (not implemented) for any other opcode; one question, one answer.
pub open spec fn response_header(req: DnsHeader) -> DnsHeader {
    DnsHeader {
        id: req.id,
        qr: 1,
        opcode: req.opcode,
        aa: 0,
        tc: 0,
        rd: req.rd,
        ra: 0,
        z: 0,
        rcode: if req.opcode == 0 { 0 } else { 4 },
        qdcount: 1,
        ancount: 1,
        nscount: 0,
        arcount: 0,
    }
}

/// The whole response to a request with header `req`.
pub open spec fn response_model(req: DnsHeader) -> MessageModel {
    MessageModel {
        header: response_header(req),
        questions: seq![QuestionModel { qname: canned_name(), qtype: 1, qclass: 1 }],
        answers: seq![
            AnswerModel {
                name: canned_name(),
                answer_type: 1,
                class: 1,
                ttl: 60,
                data: seq![8u8, 8u8, 8u8, 8u8],
            },
        ],
    }
}

proof fn lemma_utf8_len_bound(cs: Seq<char>)
    ensures
        encode_utf8(cs).len() <= 4 * cs.len(),
    decreases cs.len(),
{
    if cs.len() > 0 {
        assert(encode_scalar(cs[0] as u32).len() <= 4);
        lemma_utf8_len_bound(cs.drop_first());
    }
}

fn canned_labels() -> (r: DnsLabels)
    ensures
        r@ == canned_name(),
        r.encodable(),
{
    let mut names: Vec<String> = Vec::new();
    names.push(String::from_str("codecrafters"));
    names.push(String::from_str("io"));
    let r = DnsLabels(names);
    proof {
        reveal_strlit("codecrafters");
        reveal_strlit("io");
        assert(r@ =~= canned_name());
        lemma_utf8_len_bound(r@[0]);
        lemma_utf8_len_bound(r@[1]);
    }
    r
}

/// The response to `req`. It reads only the request's header.
pub fn response(req: &DnsMessage) -> (r: DnsMessage)
    ensures
        r@ == response_model(req.header),
        r.header.id == req.header.id,
        r.header.rcode == (if req.header.opcode == 0 { 0u8 } else { 4u8 }),
        r.questions@.len() == 1,
        r.answers@.len() == 1,
        r.encodable(),
{
    let header = DnsHeader {
        id: req.header.id,
        qr: 1,
        opcode: req.header.opcode,
        aa: 0,
        tc: 0,
        rd: req.header.rd,
        ra: 0,
        z: 0,
        rcode: if req.header.opcode == 0 { 0 } else { 4 },
        qdcount: 1,
        ancount: 1,
        nscount: 0,
        arcount: 0,
    };
    let mut questions: Vec<DnsQuestion> = Vec::new();
    questions.push(DnsQuestion { qname: canned_labels(), qtype: 1, qclass: 1 });
    let mut data: Vec<u8> = Vec::new();
    data.push(8u8);
    data.push(8u8);
    data.push(8u8);
    data.push(8u8);
    let mut answers: Vec<DnsAnswer> = Vec::new();
    answers.push(DnsAnswer { name: canned_labels(), answer_type: 1, class: 1, ttl: 60, data });
    let r = DnsMessage { header, questions, answers };
    proof {
        assert(r@.questions =~= response_model(req.header).questions);
        assert(r@.answers[0].data =~= seq![8u8, 8u8, 8u8, 8u8]);
        assert(r@.answers =~= response_model(req.header).answers);
    }
    r
}

/// Handles one datagram: decodes a request, builds its response and encodes
/// it. A datagram that does not decode gets no response, only the error.
pub fn handle_request(bytes: &[u8]) -> (r: Result<Vec<u8>, DnsError>)
    ensures
        match spec_parse_message(bytes@) {
            Ok((req, _)) => r matches Ok(out) && out@ == message_wire(response_model(req.header)),
            Err(e) => r == Err::<Vec<u8>, DnsError>(e),
        },
{
    match dns_msg(bytes) {
        Ok((_, req)) => {
            let resp = response(&req);
            Ok(resp.to_bytes())
        },
        Err(e) => Err(e),
    }
}

} // verus!
