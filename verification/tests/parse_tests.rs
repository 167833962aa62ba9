use fdns_format::errors::Error;
use fdns_format::parse::label;
use fdns_format::parse::parse;

const DATA: [u8; 36] = [
    0x8e, 0xe1, 0x01, 0x20, 0x00, 0x01, 0x00, 0x00, 0x00, 0x00, 0x00, 0x01, 0x03, 0x66, 0x61,
    0x75, 0x03, 0x78, 0x78, 0x78, 0x00, 0x00, 0x01, 0x00, 0x01, 0x00, 0x00, 0x29, 0x10, 0x00,
    0x00, 0x00, 0x00, 0x00, 0x00, 0x00,
];

#[test]
fn packet_a_fau_xxx() {
    let packet = parse(&DATA).unwrap();

    assert_eq!(1, packet.questions.len());
    assert_eq!(0, packet.answers.len());
    assert_eq!(0, packet.authorities.len());
    assert_eq!(1, packet.additionals.len());

    let first_question = &packet.questions[0];
    let label_bytes = &DATA[first_question.label_start..first_question.label_start + first_question.label_len];
    assert_eq!(b"\x03fau\x03xxx\0", label_bytes);
}

#[test]
fn parse_packet_a_fau_xxx() {
    let packet = parse(&DATA).unwrap();

    assert_eq!(1, packet.questions.len());
    assert_eq!(0, packet.answers.len());
    assert_eq!(0, packet.authorities.len());
    assert_eq!(1, packet.additionals.len());

    let first_question = &packet.questions[0];
    let label_bytes = &DATA[first_question.label_start..first_question.label_start + first_question.label_len];
    assert_eq!(b"\x03fau\x03xxx\0", label_bytes);
}

#[test]
fn label_fau_xxx() {
    let exp = b"\x03fau\x03xxx\0";
    let end = label(exp).unwrap();
    let (matched, rem) = exp.split_at(end);
    assert_eq!(&[0u8; 0], rem);
    assert_eq!(&exp[..], matched);
}

#[test]
fn parse_label_fau_xxx() {
    let exp = b"\x03fau\x03xxx\0";
    let end = label(exp).unwrap();
    let (matched, rem) = exp.split_at(end);
    assert_eq!(&[0u8; 0], rem);
    assert_eq!(&exp[..], matched);
}

#[test]
fn label_ref() {
    let exp = b"\x03fau\xc0\x0c";
    let end = label(exp).unwrap();
    let (matched, rem) = exp.split_at(end);
    assert_eq!(&[0u8; 0], rem);
    assert_eq!(&exp[..], matched);
}

#[test]
fn parse_label_ref() {
    let exp = b"\x03fau\xc0\x0c";
    let end = label(exp).unwrap();
    let (matched, rem) = exp.split_at(end);
    assert_eq!(&[0u8; 0], rem);
    assert_eq!(&exp[..], matched);
}

#[test]
fn label_only_ref() {
    let exp = b"\xc0\x0c";
    let end = label(exp).unwrap();
    let (matched, rem) = exp.split_at(end);
    assert_eq!(&[0u8; 0], rem);
    assert_eq!(&exp[..], matched);
}

#[test]
fn parse_label_only_ref() {
    let exp = b"\xc0\x0c";
    let end = label(exp).unwrap();
    let (matched, rem) = exp.split_at(end);
    assert_eq!(&[0u8; 0], rem);
    assert_eq!(&exp[..], matched);
}

#[test]
fn label_truncated_segment() {
    assert_eq!(Error::TooShort, label(b"\x03fa").unwrap_err());
}

#[test]
fn label_truncated_pointer() {
    assert_eq!(Error::TooShort, label(b"\xc0").unwrap_err());
}

#[test]
fn fau_xxx_transaction_and_name() {
    let packet = parse(&DATA).unwrap();
    assert_eq!(0x8ee1, packet.transaction_id);
    assert_eq!(1, packet.questions.len());
    assert_eq!(0, packet.answers.len());
    assert_eq!(0, packet.authorities.len());
    assert_eq!(1, packet.additionals.len());

    let q = &packet.questions[0];
    let name = fdns_format::label::decode_label(
        &DATA[q.label_start..q.label_start + q.label_len],
        &DATA,
    )
    .unwrap();
    assert_eq!(b"fau.xxx.".to_vec(), name);
    assert_eq!(fdns_format::RrType::A, q.req_type);
    assert_eq!(fdns_format::RrClass::Internet, q.req_class);
}

#[test]
fn fau_xxx_header_flags() {
    let packet = parse(&DATA).unwrap();
    // flags word 0x0120: recursion desired, and one reserved bit set
    assert!(!packet.is_query());
    assert!(!packet.is_authoritative());
    assert!(!packet.is_truncated());
    assert!(packet.is_recursion_desired());
    assert!(!packet.is_recursion_available());
    assert_eq!(fdns_format::OpCode::Query, packet.opcode());
    assert_eq!(fdns_format::RCode::NoError, packet.rcode());
    assert!(!packet.reserved_bits_are_zero());
}

#[test]
fn empty_buffer_too_short() {
    assert_eq!(Error::TooShort, parse(&[]).unwrap_err());
}

#[test]
fn eleven_bytes_too_short() {
    let buf = [0u8; 11];
    assert_eq!(Error::TooShort, parse(&buf).unwrap_err());
}

#[test]
fn question_count_exceeds_buffer() {
    // QDCOUNT 1 but nothing after the header
    let buf = [0u8, 0, 0, 0, 0, 1, 0, 0, 0, 0, 0, 0];
    assert_eq!(Error::TooShort, parse(&buf).unwrap_err());
}

#[test]
fn answer_count_exceeds_buffer() {
    // ANCOUNT 2 but bytes for less than one record
    let mut buf = vec![0u8, 0, 0, 0, 0, 0, 0, 2, 0, 0, 0, 0];
    buf.extend_from_slice(b"\x00\x00\x01\x00\x01");
    assert_eq!(Error::TooShort, parse(&buf).unwrap_err());
}

#[test]
fn rdata_length_exceeds_buffer() {
    // one answer whose declared payload length runs past the end
    let mut buf = vec![0u8, 0, 0, 0, 0, 0, 0, 1, 0, 0, 0, 0];
    buf.extend_from_slice(b"\x00"); // root name
    buf.extend_from_slice(&[0, 1, 0, 1]); // type A, class Internet
    buf.extend_from_slice(&[0, 0, 0, 60]); // ttl
    buf.extend_from_slice(&[0, 4]); // declares 4 payload bytes
    buf.extend_from_slice(&[1, 2]); // only 2 remain
    assert_eq!(Error::RdataTruncated, parse(&buf).unwrap_err());
}

#[test]
fn trailing_byte_rejected() {
    let buf = [0u8, 0, 0, 0, 0, 0, 0, 0, 0, 0, 0, 0, 0xff];
    assert_eq!(Error::TrailingData, parse(&buf).unwrap_err());
}

#[test]
fn twelve_byte_empty_message_parses() {
    let buf = [0xabu8, 0xcd, 0, 0, 0, 0, 0, 0, 0, 0, 0, 0];
    let packet = parse(&buf).unwrap();
    assert_eq!(0xabcd, packet.transaction_id);
    assert_eq!(0, packet.questions.len());
    assert_eq!(0, packet.answers.len());
    assert_eq!(0, packet.authorities.len());
    assert_eq!(0, packet.additionals.len());
}

#[test]
fn record_payload_located() {
    // one answer with a 4-byte payload; check where the payload lies
    let mut buf = vec![0x12u8, 0x34, 0x81, 0x80, 0, 0, 0, 1, 0, 0, 0, 0];
    buf.extend_from_slice(b"\x01a\x00"); // name "a."
    buf.extend_from_slice(&[0, 1, 0, 1]); // type A, class Internet
    buf.extend_from_slice(&[0, 0, 1, 44]); // ttl 300
    buf.extend_from_slice(&[0, 4]);
    buf.extend_from_slice(&[10, 0, 0, 1]);
    let packet = parse(&buf).unwrap();
    assert_eq!(1, packet.answers.len());
    let rr = &packet.answers[0];
    assert_eq!(300, rr.ttl);
    assert_eq!(fdns_format::RrType::A, rr.question.req_type);
    assert_eq!(4, rr.data_len);
    assert_eq!(&[10, 0, 0, 1], &buf[rr.data_start..rr.data_start + rr.data_len]);
    assert_eq!(buf.len(), rr.data_start + rr.data_len);
}

#[test]
fn is_end_byte_recognises_terminators() {
    assert!(fdns_format::parse::is_end_byte(&[0]));
    assert!(fdns_format::parse::is_end_byte(&[0xc0, 0x0c]));
    assert!(fdns_format::parse::is_end_byte(&[64]));
    assert!(!fdns_format::parse::is_end_byte(&[3, 102]));
    assert!(!fdns_format::parse::is_end_byte(&[63]));
}
