use fdns_format::errors::Error;
use fdns_format::label::decode_label;
use fdns_format::parse::parse;

const GMAIL: [u8; 161] = [
    0x3d, 0x1f, 0x81, 0x80, 0x00, 0x01, 0x00, 0x05, // =.......
    0x00, 0x00, 0x00, 0x01, 0x05, 0x67, 0x6d, 0x61, // .....gma
    0x69, 0x6c, 0x03, 0x63, 0x6f, 0x6d, 0x00, 0x00, // il.com..
    0x0f, 0x00, 0x01, 0xc0, 0x0c, 0x00, 0x0f, 0x00, // ........
    0x01, 0x00, 0x00, 0x02, 0x2b, 0x00, 0x20, 0x00, // ....+...
    0x1e, 0x04, 0x61, 0x6c, 0x74, 0x33, 0x0d, 0x67, // ..alt3.g
    0x6d, 0x61, 0x69, 0x6c, 0x2d, 0x73, 0x6d, 0x74, // mail-smt
    0x70, 0x2d, 0x69, 0x6e, 0x01, 0x6c, 0x06, 0x67, // p-in.l.g
    0x6f, 0x6f, 0x67, 0x6c, 0x65, 0xc0, 0x12, 0xc0, // oogle...
    0x0c, 0x00, 0x0f, 0x00, 0x01, 0x00, 0x00, 0x02, // ........
    0x2b, 0x00, 0x09, 0x00, 0x14, 0x04, 0x61, 0x6c, // +.....al
    0x74, 0x32, 0xc0, 0x2e, 0xc0, 0x0c, 0x00, 0x0f, // t2......
    0x00, 0x01, 0x00, 0x00, 0x02, 0x2b, 0x00, 0x09, // .....+..
    0x00, 0x28, 0x04, 0x61, 0x6c, 0x74, 0x34, 0xc0, // .(.alt4.
    0x2e, 0xc0, 0x0c, 0x00, 0x0f, 0x00, 0x01, 0x00, // ........
    0x00, 0x02, 0x2b, 0x00, 0x09, 0x00, 0x0a, 0x04, // ..+.....
    0x61, 0x6c, 0x74, 0x31, 0xc0, 0x2e, 0xc0, 0x0c, // alt1....
    0x00, 0x0f, 0x00, 0x01, 0x00, 0x00, 0x02, 0x2b, // .......+
    0x00, 0x04, 0x00, 0x05, 0xc0, 0x2e, 0x00, 0x00, // ........
    0x29, 0xff, 0xd6, 0x00, 0x00, 0x00, 0x00, 0x00, // ).......
    0x00, // .
];

#[test]
fn gmail_mx() {
    let data = &GMAIL;
    let packet = parse(data).unwrap();

    assert_eq!(1, packet.questions.len());
    assert_eq!(5, packet.answers.len());

    let owner = &packet.answers[0].question;
    assert_eq!(
        b"gmail.com.",
        decode_label(&data[owner.label_start..owner.label_start + owner.label_len], data)
            .unwrap()
            .as_slice()
    );

    // MX record, so two bytes of priority before the label
    let rr = &packet.answers[2];
    assert_eq!(
        b"alt4.gmail-smtp-in.l.google.com.",
        decode_label(&data[rr.data_start + 2..rr.data_start + rr.data_len], data)
            .unwrap()
            .as_slice()
    );
}

#[test]
fn parse_gmail_mx() {
    let packet = parse(&GMAIL).unwrap();

    assert_eq!(1, packet.questions.len());
    assert_eq!(5, packet.answers.len());
}

#[test]
fn plain_label_decodes() {
    let label = b"\x03fau\x03xxx\0";
    assert_eq!(b"fau.xxx.".to_vec(), decode_label(label, label).unwrap());
}

#[test]
fn root_label_decodes_empty() {
    let label = b"\0";
    assert_eq!(Vec::<u8>::new(), decode_label(label, label).unwrap());
}

#[test]
fn self_pointer_is_compression_loop() {
    // a 12-byte header, then a pointer whose offset is its own position
    let mut buf = vec![0u8; 12];
    buf.push(0xc0);
    buf.push(0x0c);
    assert_eq!(
        Error::CompressionLoop,
        decode_label(&buf[12..14], &buf).unwrap_err()
    );
}

#[test]
fn two_step_pointer_cycle_is_compression_loop() {
    // two pointers that point at each other
    let mut buf = vec![0u8; 12];
    buf.extend_from_slice(&[0xc0, 0x0e, 0xc0, 0x0c]);
    assert_eq!(
        Error::CompressionLoop,
        decode_label(&buf[12..16], &buf).unwrap_err()
    );
}

#[test]
fn segment_past_end_is_out_of_bounds() {
    let label = b"\x03fa";
    assert_eq!(Error::LabelOutOfBounds, decode_label(label, label).unwrap_err());
}

#[test]
fn missing_terminator_is_out_of_bounds() {
    let label = b"\x02fa";
    assert_eq!(Error::LabelOutOfBounds, decode_label(label, label).unwrap_err());
}

#[test]
fn pointer_past_end_is_out_of_bounds() {
    let packet = b"\x03fau\xc0\x7f";
    assert_eq!(
        Error::LabelOutOfBounds,
        decode_label(packet, packet).unwrap_err()
    );
}

#[test]
fn unassigned_length_form_is_malformed() {
    // 0x40 is neither a literal length, a terminator, nor a pointer
    let label = b"\x40abc\0";
    assert_eq!(Error::MalformedLabel, decode_label(label, label).unwrap_err());
}

#[test]
fn pointer_chain_within_budget_resolves() {
    // a chain of pointers, each two bytes earlier, ending at a literal name
    let mut buf = b"\x01a\0".to_vec();
    for hop in 0..15 {
        let target = if hop == 0 { 0u16 } else { 3 + 2 * (hop - 1) };
        buf.push(0xc0 | (target >> 8) as u8);
        buf.push((target & 0xff) as u8);
    }
    let start = 3 + 2 * 14;
    assert_eq!(
        b"a.".to_vec(),
        decode_label(&buf[start..start + 2], &buf).unwrap()
    );
}

#[test]
fn pointer_chain_past_budget_is_compression_loop() {
    // seventeen pointers in a row exceed the sixteen-hop budget
    let mut buf = b"\x01a\0".to_vec();
    for hop in 0..17 {
        let target = if hop == 0 { 0u16 } else { 3 + 2 * (hop - 1) };
        buf.push(0xc0 | (target >> 8) as u8);
        buf.push((target & 0xff) as u8);
    }
    let start = 3 + 2 * 16;
    assert_eq!(
        Error::CompressionLoop,
        decode_label(&buf[start..start + 2], &buf).unwrap_err()
    );
}
