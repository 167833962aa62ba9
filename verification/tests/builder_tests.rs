use fdns_format::OpCode;
use fdns_format::RCode;
use fdns_format::RrClass;
use fdns_format::RrType;
use fdns_format::errors::Error;
use fdns_format::gen::Builder;
use fdns_format::gen::Question;
use fdns_format::gen::Rr;
use fdns_format::gen::short_reply;
use fdns_format::header::flags_word;
use fdns_format::label::decode_label;
use fdns_format::parse::parse;

#[test]
fn server_failure_response_is_twelve_bytes() {
    let mut b = Builder::response_to(0x1234);
    b.error(RCode::ServerFail);
    let bytes = b.build().unwrap();
    assert_eq!(
        vec![0x12, 0x34, 0x80, 0x02, 0, 0, 0, 0, 0, 0, 0, 0],
        bytes
    );
}

#[test]
fn response_echoes_transaction_id() {
    let b = Builder::response_to(0x8ee1);
    let bytes = b.build().unwrap();
    assert_eq!(vec![0x8e, 0xe1, 0x80, 0x00, 0, 0, 0, 0, 0, 0, 0, 0], bytes);
}

#[test]
fn error_overwrites_only_low_bits() {
    let mut b = Builder::response_to(1);
    b.error(RCode::Refused);
    let refused = b.build().unwrap();
    assert_eq!(0x80, refused[2]);
    assert_eq!(0x05, refused[3]);
    b.error(RCode::NoError);
    let cleared = b.build().unwrap();
    assert_eq!(0x80, cleared[2]);
    assert_eq!(0x00, cleared[3]);
}

#[test]
fn question_serialises_as_segments() {
    let mut b = Builder::response_to(0x0102);
    b.set_query(Some(Question::new(
        b"fau.xxx.".to_vec(),
        RrType::A,
        RrClass::Internet,
    )));
    let bytes = b.build().unwrap();
    let mut expected = vec![0x01u8, 0x02, 0x80, 0x00, 0, 1, 0, 0, 0, 0, 0, 0];
    expected.extend_from_slice(b"\x03fau\x03xxx\0");
    expected.extend_from_slice(&[0, 1, 0, 1]);
    assert_eq!(expected, bytes);
}

#[test]
fn built_response_parses_back() {
    let mut b = Builder::response_to(0xbeef);
    b.set_query(Some(Question::new(
        b"fau.xxx.".to_vec(),
        RrType::A,
        RrClass::Internet,
    )));
    b.add_answer(Rr {
        question: Question::new(b"fau.xxx.".to_vec(), RrType::A, RrClass::Internet),
        ttl: 300,
        data: vec![10, 0, 0, 1],
    });
    let bytes = b.build().unwrap();
    let packet = parse(&bytes).unwrap();
    assert_eq!(0xbeef, packet.transaction_id);
    assert!(packet.is_query());
    assert_eq!(RCode::NoError, packet.rcode());
    assert_eq!(1, packet.questions.len());
    assert_eq!(1, packet.answers.len());
    assert_eq!(0, packet.authorities.len());
    assert_eq!(0, packet.additionals.len());
    let rr = &packet.answers[0];
    assert_eq!(300, rr.ttl);
    assert_eq!(RrType::A, rr.question.req_type);
    assert_eq!(RrClass::Internet, rr.question.req_class);
    assert_eq!(&[10, 0, 0, 1], &bytes[rr.data_start..rr.data_start + rr.data_len]);
    let q = &packet.questions[0];
    assert_eq!(
        b"fau.xxx.".to_vec(),
        decode_label(&bytes[q.label_start..q.label_start + q.label_len], &bytes).unwrap()
    );
}

#[test]
fn oversized_segment_rejected() {
    let mut name = vec![b'a'; 64];
    name.push(b'.');
    let mut b = Builder::response_to(1);
    b.set_query(Some(Question::new(name, RrType::A, RrClass::Internet)));
    assert_eq!(Error::SegmentTooLong, b.build().unwrap_err());
}

#[test]
fn longest_segment_accepted() {
    let mut name = vec![b'a'; 63];
    name.push(b'.');
    let mut b = Builder::response_to(1);
    b.set_query(Some(Question::new(name, RrType::A, RrClass::Internet)));
    let bytes = b.build().unwrap();
    assert_eq!(63, bytes[12]);
    assert_eq!(12 + 1 + 63 + 1 + 4, bytes.len());
}

#[test]
fn unterminated_name_rejected() {
    let mut b = Builder::response_to(1);
    b.set_query(Some(Question::new(
        b"fau.xxx".to_vec(),
        RrType::A,
        RrClass::Internet,
    )));
    assert_eq!(Error::UnterminatedName, b.build().unwrap_err());
}

#[test]
fn oversized_rdata_rejected() {
    let mut b = Builder::response_to(1);
    b.add_answer(Rr {
        question: Question::new(b"a.".to_vec(), RrType::Txt, RrClass::Internet),
        ttl: 0,
        data: vec![0u8; 65536],
    });
    assert_eq!(Error::RdataTooLong, b.build().unwrap_err());
}

#[test]
fn oversized_section_rejected() {
    let mut b = Builder::response_to(1);
    for _ in 0..65536 {
        b.add_answer(Rr {
            question: Question::new(b"a.".to_vec(), RrType::A, RrClass::Internet),
            ttl: 0,
            data: Vec::new(),
        });
    }
    assert_eq!(Error::TooManyRecords, b.build().unwrap_err());
}

#[test]
fn flags_word_round_trips_through_parse() {
    let w = flags_word(
        true,
        OpCode::Status,
        true,
        false,
        true,
        false,
        RCode::Refused,
    );
    assert_eq!(0x9505, w);
    let buf = [0u8, 0, (w >> 8) as u8, (w & 0xff) as u8, 0, 0, 0, 0, 0, 0, 0, 0];
    let packet = parse(&buf).unwrap();
    assert!(packet.is_query());
    assert_eq!(OpCode::Status, packet.opcode());
    assert!(packet.is_authoritative());
    assert!(!packet.is_truncated());
    assert!(packet.is_recursion_desired());
    assert!(!packet.is_recursion_available());
    assert_eq!(RCode::Refused, packet.rcode());
    assert!(packet.reserved_bits_are_zero());
}

#[test]
fn every_flag_combination_survives_a_round_trip() {
    for response in [false, true] {
        for op in 0u8..16 {
            for rc in 0u8..16 {
                for bits in 0u8..32 {
                    let aa = bits & 1 != 0;
                    let tc = bits & 2 != 0;
                    let rd = bits & 4 != 0;
                    let ra = bits & 8 != 0;
                    let opcode = OpCode::from_bits(op);
                    let rcode = RCode::from_bits(rc);
                    let w = flags_word(response, opcode, aa, tc, rd, ra, rcode);
                    let buf =
                        [0u8, 0, (w >> 8) as u8, (w & 0xff) as u8, 0, 0, 0, 0, 0, 0, 0, 0];
                    let packet = parse(&buf).unwrap();
                    assert_eq!(response, packet.is_query());
                    assert_eq!(opcode, packet.opcode());
                    assert_eq!(aa, packet.is_authoritative());
                    assert_eq!(tc, packet.is_truncated());
                    assert_eq!(rd, packet.is_recursion_desired());
                    assert_eq!(ra, packet.is_recursion_available());
                    assert_eq!(rcode, packet.rcode());
                    assert!(packet.reserved_bits_are_zero());
                }
            }
        }
    }
}

#[test]
fn rcode_conversions() {
    assert_eq!(RCode::NoError, RCode::from_bits(0));
    assert_eq!(RCode::FormatError, RCode::from_bits(1));
    assert_eq!(RCode::ServerFail, RCode::from_bits(2));
    assert_eq!(RCode::NxDomain, RCode::from_bits(3));
    assert_eq!(RCode::NotImplemented, RCode::from_bits(4));
    assert_eq!(RCode::Refused, RCode::from_bits(5));
    assert_eq!(RCode::Unknown(9), RCode::from_bits(9));
    assert_eq!(2, RCode::ServerFail.mask());
    assert_eq!(9, RCode::Unknown(9).mask());
}

#[test]
fn opcode_conversions() {
    assert_eq!(OpCode::Query, OpCode::from_bits(0));
    assert_eq!(OpCode::IQuery, OpCode::from_bits(1));
    assert_eq!(OpCode::Status, OpCode::from_bits(2));
    assert_eq!(OpCode::Unknown(7), OpCode::from_bits(7));
    assert_eq!(1, OpCode::IQuery.mask());
}

#[test]
fn rr_type_codes() {
    assert_eq!(RrType::A, RrType::from_code(1));
    assert_eq!(RrType::Ns, RrType::from_code(2));
    assert_eq!(RrType::CName, RrType::from_code(5));
    assert_eq!(RrType::Mx, RrType::from_code(15));
    assert_eq!(RrType::Txt, RrType::from_code(16));
    assert_eq!(RrType::Aaaa, RrType::from_code(28));
    assert_eq!(RrType::Srv, RrType::from_code(33));
    assert_eq!(RrType::Unknown(99), RrType::from_code(99));
    assert_eq!(28, RrType::Aaaa.code());
    assert_eq!(99, RrType::Unknown(99).code());
    assert_eq!(RrClass::Internet, RrClass::from_code(1));
    assert_eq!(RrClass::Unknown(4), RrClass::from_code(4));
    assert_eq!(1, RrClass::Internet.code());
    assert_eq!(4, RrClass::Unknown(4).code());
}

#[test]
fn short_reply_overwrites_header() {
    let mut buf = vec![
        0x8e, 0xe1, 0x01, 0x20, 0x00, 0x01, 0x00, 0x00, 0x00, 0x00, 0x00, 0x01, 0x03, 0x66,
    ];
    short_reply(&mut buf, true, 5);
    assert_eq!(0x8e, buf[0]);
    assert_eq!(0xe1, buf[1]);
    // response bit set, opcode and recursion-desired echoed from 0x01
    assert_eq!(0x81, buf[2]);
    // recursion available plus the given response code
    assert_eq!(0x85, buf[3]);
    assert_eq!(&[0u8; 8], &buf[4..12]);
    // bytes past the header are untouched
    assert_eq!(&[0x03, 0x66], &buf[12..]);
}

#[test]
fn short_reply_without_recursion() {
    let mut buf = vec![0u8; 12];
    buf[2] = 0x78; // opcode bits all set
    short_reply(&mut buf, false, 2);
    assert_eq!(0xf8, buf[2]);
    assert_eq!(0x02, buf[3]);
}
