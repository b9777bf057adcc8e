use dns_codec::{
    dns_header, dns_msg, handle_request, response, DnsAnswer, DnsError, DnsHeader, DnsLabels,
    DnsMessage, DnsQuestion, ToBytes,
};

fn labels(names: &[&str]) -> DnsLabels {
    DnsLabels(names.iter().map(|s| s.to_string()).collect())
}

fn header(id: u16, opcode: u8, qdcount: u16, ancount: u16) -> DnsHeader {
    DnsHeader {
        id,
        qr: 0,
        opcode,
        aa: 0,
        tc: 0,
        rd: 1,
        ra: 0,
        z: 0,
        rcode: 0,
        qdcount,
        ancount,
        nscount: 0,
        arcount: 0,
    }
}

fn question(names: &[&str]) -> DnsQuestion {
    DnsQuestion { qname: labels(names), qtype: 1, qclass: 1 }
}

#[test]
fn test_encode_labels() {
    let l = DnsLabels(vec!["google".to_string(), "com".to_string()]);
    println!("{:?}", l.to_bytes());
    assert_eq!(l.to_bytes(), b"\x06google\x03com\x00".to_vec());
}

#[test]
fn test_round_trip() {
    let original = DnsMessage {
        header: DnsHeader {
            id: 1234,
            qr: 1,
            opcode: 0,
            aa: 0,
            tc: 0,
            rd: 0,
            ra: 0,
            z: 0,
            rcode: 0,
            qdcount: 1,
            ancount: 1,
            nscount: 0,
            arcount: 0,
        },
        questions: vec![DnsQuestion {
            qname: DnsLabels(vec!["google".to_string(), "com".to_string()]),
            qtype: 1,
            qclass: 1,
        }],
        answers: vec![DnsAnswer {
            name: DnsLabels(vec!["google".to_string(), "com".to_string()]),
            answer_type: 0,
            class: 0,
            ttl: 0,
            data: vec![],
        }],
    };

    let binding = original.to_bytes();
    let results = dns_msg(binding.as_slice());
    assert_eq!(results, Ok((vec![].as_slice(), original)));
}

#[test]
fn header_flags_pack_response_bit() {
    let mut h = header(0x04d2, 0, 0, 0);
    h.qr = 1;
    h.rd = 0;
    let bytes = h.to_bytes();
    assert_eq!(bytes.len(), 12);
    assert_eq!(bytes[0], 0x04);
    assert_eq!(bytes[1], 0xd2);
    assert_eq!(bytes[2], 0x80);
    assert_eq!(bytes[3], 0x00);
}

#[test]
fn header_flags_pack_every_field() {
    let h = DnsHeader {
        id: 0xabcd,
        qr: 1,
        opcode: 0xf,
        aa: 1,
        tc: 0,
        rd: 1,
        ra: 1,
        z: 0x5,
        rcode: 0x3,
        qdcount: 1,
        ancount: 2,
        nscount: 3,
        arcount: 0x0102,
    };
    let bytes = h.to_bytes();
    assert_eq!(
        bytes,
        vec![0xab, 0xcd, 0xfd, 0xd3, 0, 1, 0, 2, 0, 3, 0x01, 0x02]
    );
    assert_eq!(dns_header(&bytes), Ok((&[][..], h)));
}

#[test]
fn header_fields_are_cut_to_their_widths() {
    let mut h = header(7, 0x1f, 0, 0);
    h.qr = 3;
    h.rd = 0;
    let bytes = h.to_bytes();
    assert_eq!(bytes[2], 0x80 | (0xf << 3));
}

#[test]
fn labels_end_with_zero_byte() {
    let l = labels(&["codecrafters", "io"]);
    assert_eq!(l.to_bytes(), b"\x0ccodecrafters\x02io\x00".to_vec());
}

#[test]
fn empty_name_is_one_zero_byte() {
    assert_eq!(labels(&[]).to_bytes(), vec![0u8]);
}

#[test]
fn question_and_answer_layout() {
    let q = question(&["a"]);
    assert_eq!(q.to_bytes(), vec![1, b'a', 0, 0, 1, 0, 1]);
    let a = DnsAnswer {
        name: labels(&["a"]),
        answer_type: 1,
        class: 1,
        ttl: 0x01020304,
        data: vec![8, 8, 8, 8],
    };
    assert_eq!(
        a.to_bytes(),
        vec![1, b'a', 0, 0, 1, 0, 1, 1, 2, 3, 4, 0, 4, 8, 8, 8, 8]
    );
}

#[test]
fn counts_drive_parsing_and_trailing_bytes_stay() {
    let msg = DnsMessage {
        header: header(9, 0, 1, 0),
        questions: vec![question(&["example", "com"])],
        answers: vec![],
    };
    let mut bytes = msg.to_bytes();
    bytes.extend_from_slice(&[0xde, 0xad]);
    let (rest, parsed) = dns_msg(&bytes).unwrap();
    assert_eq!(parsed.questions.len(), 1);
    assert_eq!(parsed.answers.len(), 0);
    assert_eq!(rest, &[0xde, 0xad][..]);
    assert_eq!(parsed, msg);
}

#[test]
fn short_header_is_truncated() {
    for n in 0..12 {
        let bytes = vec![0u8; n];
        assert_eq!(dns_header(&bytes), Err(DnsError::Truncated));
        assert_eq!(dns_msg(&bytes), Err(DnsError::Truncated));
    }
}

#[test]
fn missing_question_is_truncated() {
    let bytes = header(1, 0, 1, 0).to_bytes();
    assert_eq!(dns_msg(&bytes), Err(DnsError::Truncated));
}

#[test]
fn label_longer_than_input_is_truncated() {
    let mut bytes = header(1, 0, 1, 0).to_bytes();
    bytes.extend_from_slice(&[5, b'a', b'b']);
    assert_eq!(dns_msg(&bytes), Err(DnsError::Truncated));
}

#[test]
fn invalid_utf8_label_is_malformed() {
    let mut bytes = header(1, 0, 1, 0).to_bytes();
    bytes.extend_from_slice(&[2, 0xff, 0xfe, 0, 0, 1, 0, 1]);
    assert_eq!(dns_msg(&bytes), Err(DnsError::MalformedLabel));
}

#[test]
fn non_ascii_label_decodes_to_its_text() {
    let mut bytes = header(1, 0, 1, 0).to_bytes();
    bytes.extend_from_slice(&[2, 0xc3, 0xbc, 0, 0, 1, 0, 1]);
    let (_, m) = dns_msg(&bytes).unwrap();
    assert_eq!(m.questions[0].qname, labels(&["\u{fc}"]));
}

#[test]
fn short_rdata_is_truncated() {
    let msg = DnsMessage {
        header: header(1, 0, 0, 1),
        questions: vec![],
        answers: vec![DnsAnswer {
            name: labels(&["x"]),
            answer_type: 1,
            class: 1,
            ttl: 5,
            data: vec![1, 2, 3, 4],
        }],
    };
    let bytes = msg.to_bytes();
    assert_eq!(dns_msg(&bytes[..bytes.len() - 1]), Err(DnsError::Truncated));
    assert_eq!(dns_msg(&bytes), Ok((&[][..], msg)));
}

#[test]
fn round_trip_with_several_records() {
    let msg = DnsMessage {
        header: DnsHeader {
            id: 0xffff,
            qr: 1,
            opcode: 2,
            aa: 1,
            tc: 1,
            rd: 1,
            ra: 1,
            z: 7,
            rcode: 15,
            qdcount: 2,
            ancount: 2,
            nscount: 0,
            arcount: 0,
        },
        questions: vec![question(&["a", "b", "c"]), question(&["caf\u{e9}"])],
        answers: vec![
            DnsAnswer {
                name: labels(&["a"]),
                answer_type: 28,
                class: 1,
                ttl: u32::MAX,
                data: vec![0; 16],
            },
            DnsAnswer {
                name: labels(&[]),
                answer_type: 1,
                class: 1,
                ttl: 0,
                data: vec![],
            },
        ],
    };
    let bytes = msg.to_bytes();
    assert_eq!(dns_msg(&bytes), Ok((&[][..], msg)));
}

#[test]
fn response_to_standard_query() {
    let req = DnsMessage {
        header: header(0x1234, 0, 2, 0),
        questions: vec![question(&["a"]), question(&["b"])],
        answers: vec![],
    };
    let r = response(&req);
    assert_eq!(r.header.id, 0x1234);
    assert_eq!(r.header.qr, 1);
    assert_eq!(r.header.opcode, 0);
    assert_eq!(r.header.rd, 1);
    assert_eq!(r.header.rcode, 0);
    assert_eq!(r.header.qdcount, 1);
    assert_eq!(r.header.ancount, 1);
    assert_eq!(r.questions, vec![question(&["codecrafters", "io"])]);
    assert_eq!(r.answers.len(), 1);
    assert_eq!(r.answers[0].name, labels(&["codecrafters", "io"]));
    assert_eq!(r.answers[0].ttl, 60);
    assert_eq!(r.answers[0].data, vec![8, 8, 8, 8]);
}

#[test]
fn response_to_other_opcode_is_not_implemented() {
    for opcode in 1..16u8 {
        let req = DnsMessage {
            header: header(77, opcode, 0, 0),
            questions: vec![],
            answers: vec![],
        };
        let r = response(&req);
        assert_eq!(r.header.rcode, 4);
        assert_eq!(r.header.opcode, opcode);
        assert_eq!(r.header.id, 77);
        assert_eq!(r.questions.len(), 1);
        assert_eq!(r.answers.len(), 1);
    }
}

#[test]
fn handle_request_answers_a_query() {
    let req = DnsMessage {
        header: header(0xbeef, 0, 1, 0),
        questions: vec![question(&["codecrafters", "io"])],
        answers: vec![],
    };
    let out = handle_request(&req.to_bytes()).unwrap();
    let expected = response(&req).to_bytes();
    assert_eq!(out, expected);
    assert_eq!(&out[..4], &[0xbe, 0xef, 0x81, 0x00]);
    assert_eq!(out.len(), 12 + 21 + 31);
}

#[test]
fn handle_request_drops_garbage() {
    assert_eq!(handle_request(&[1, 2, 3]), Err(DnsError::Truncated));
}
