//! Decoding a whole message from an untrusted buffer.
//!
//! The decoder runs a single pass: the 12-byte header, then exactly as many
//! questions and resource records as the header counts declare, then a
//! strict end-of-buffer check.  Any failure aborts the whole parse with one
//! typed error; no partial message is ever returned.
//!
//! The decoded message borrows nothing: each name and each record payload
//! is kept as an offset and length into the caller's buffer, valid for as
//! long as the caller keeps that buffer.

use vstd::prelude::*;

use crate::RrClass;
use crate::RrType;
use crate::OpCode;
use crate::RCode;
use crate::errors::Error;
use crate::header;
use crate::rr_class_of;
use crate::rr_type_of;
use crate::wire::be16;
use crate::wire::be32;
use crate::wire::read_u16;
use crate::wire::read_u32;

verus! {

/// One entry of the question section: where its encoded name lies in the
/// buffer, and what is asked of that name.
#[derive(Debug)]
pub struct Question {
    /// Offset of the encoded name span in the buffer.
    pub label_start: usize,
    /// Length of the encoded name span.
    pub label_len: usize,
    pub req_type: RrType,
    pub req_class: RrClass,
}

/// One resource record: a question-shaped owner, a time-to-live, and where
/// its payload lies in the buffer.
#[derive(Debug)]
pub struct Rr {
    pub question: Question,
    pub ttl: u32,
    /// Offset of the record payload in the buffer.
    pub data_start: usize,
    /// Declared length of the record payload; the whole payload lies
    /// within the buffer.
    pub data_len: usize,
}

/// A decoded message: header fields and the four sections, in wire order.
///
/// The sections hold offsets into the buffer the message was parsed from,
/// so a `Packet` is only meaningful beside that buffer.
#[derive(Debug)]
pub struct Packet {
    pub transaction_id: u16,
    pub flags: u16,
    pub questions: Vec<Question>,
    pub answers: Vec<Rr>,
    pub authorities: Vec<Rr>,
    pub additionals: Vec<Rr>,
}

/// Mathematical image of a `Question`.
pub ghost struct QuestionModel {
    pub label_start: int,
    pub label_len: int,
    pub req_type: RrType,
    pub req_class: RrClass,
}

/// Mathematical image of an `Rr`.
pub ghost struct RrModel {
    pub question: QuestionModel,
    pub ttl: u32,
    pub data_start: int,
    pub data_len: int,
}

/// Mathematical image of a `Packet`.
#[verifier::ext_equal]
pub ghost struct PacketModel {
    pub transaction_id: u16,
    pub flags: u16,
    pub questions: Seq<QuestionModel>,
    pub answers: Seq<RrModel>,
    pub authorities: Seq<RrModel>,
    pub additionals: Seq<RrModel>,
}

impl View for Question {
    type V = QuestionModel;

    open spec fn view(&self) -> QuestionModel {
        QuestionModel {
            label_start: self.label_start as int,
            label_len: self.label_len as int,
            req_type: self.req_type,
            req_class: self.req_class,
        }
    }
}

impl View for Rr {
    type V = RrModel;

    open spec fn view(&self) -> RrModel {
        RrModel {
            question: self.question@,
            ttl: self.ttl,
            data_start: self.data_start as int,
            data_len: self.data_len as int,
        }
    }
}

/// The models of a sequence of questions.
pub open spec fn questions_model(qs: Seq<Question>) -> Seq<QuestionModel> {
    qs.map_values(|q: Question| q@)
}

/// The models of a sequence of records.
pub open spec fn rrs_model(rs: Seq<Rr>) -> Seq<RrModel> {
    rs.map_values(|r: Rr| r@)
}

impl View for Packet {
    type V = PacketModel;

    open spec fn view(&self) -> PacketModel {
        PacketModel {
            transaction_id: self.transaction_id,
            flags: self.flags,
            questions: questions_model(self.questions@),
            answers: rrs_model(self.answers@),
            authorities: rrs_model(self.authorities@),
            additionals: rrs_model(self.additionals@),
        }
    }
}

/// Where the encoded name span that starts at `pos` ends: one past its
/// terminator byte or its two-byte pointer, or `Error::TooShort` if the
/// buffer ends first.
///
/// The span is located without resolving it, so any byte of 64 or more is
/// taken as the first of a two-byte pointer; resolution decides later
/// whether it is well formed.
pub open spec fn label_span_end(data: Seq<u8>, pos: int) -> Result<int, Error>
    decreases data.len() - pos,
{
    if pos < 0 || pos >= data.len() {
        Err(Error::TooShort)
    } else {
        let len = data[pos] as int;
        if len == 0 {
            Ok(pos + 1)
        } else if len >= 64 {
            if pos + 2 <= data.len() {
                Ok(pos + 2)
            } else {
                Err(Error::TooShort)
            }
        } else if pos + 1 + len <= data.len() {
            label_span_end(data, pos + 1 + len)
        } else {
            Err(Error::TooShort)
        }
    }
}

/// The question that starts at `pos`, and the position just past it.
pub open spec fn spec_question_at(data: Seq<u8>, pos: int) -> Result<(QuestionModel, int), Error> {
    match label_span_end(data, pos) {
        Err(e) => Err(e),
        Ok(end) => if end + 4 <= data.len() {
            Ok(
                (
                    QuestionModel {
                        label_start: pos,
                        label_len: end - pos,
                        req_type: rr_type_of(be16(data[end], data[end + 1])),
                        req_class: rr_class_of(be16(data[end + 2], data[end + 3])),
                    },
                    end + 4,
                ),
            )
        } else {
            Err(Error::TooShort)
        },
    }
}

/// The resource record that starts at `pos`, and the position just past
/// it; `Error::RdataTruncated` if it declares more payload than remains.
pub open spec fn spec_rr_at(data: Seq<u8>, pos: int) -> Result<(RrModel, int), Error> {
    match spec_question_at(data, pos) {
        Err(e) => Err(e),
        Ok((q, qend)) => if qend + 6 <= data.len() {
            let ttl = be32(data[qend], data[qend + 1], data[qend + 2], data[qend + 3]);
            let rdlen = be16(data[qend + 4], data[qend + 5]) as int;
            if qend + 6 + rdlen <= data.len() {
                Ok(
                    (
                        RrModel { question: q, ttl, data_start: qend + 6, data_len: rdlen },
                        qend + 6 + rdlen,
                    ),
                )
            } else {
                Err(Error::RdataTruncated)
            }
        } else {
            Err(Error::TooShort)
        },
    }
}

/// The run of `n` questions that starts at `pos`, and the position just
/// past the last of them.
pub open spec fn spec_questions_at(data: Seq<u8>, pos: int, n: nat) -> Result<
    (Seq<QuestionModel>, int),
    Error,
>
    decreases n,
{
    if n == 0 {
        Ok((Seq::empty(), pos))
    } else {
        match spec_question_at(data, pos) {
            Err(e) => Err(e),
            Ok((q, p)) => match spec_questions_at(data, p, (n - 1) as nat) {
                Err(e) => Err(e),
                Ok((qs, end)) => Ok((seq![q] + qs, end)),
            },
        }
    }
}

/// The run of `n` resource records that starts at `pos`, and the position
/// just past the last of them.
pub open spec fn spec_rrs_at(data: Seq<u8>, pos: int, n: nat) -> Result<
    (Seq<RrModel>, int),
    Error,
>
    decreases n,
{
    if n == 0 {
        Ok((Seq::empty(), pos))
    } else {
        match spec_rr_at(data, pos) {
            Err(e) => Err(e),
            Ok((r, p)) => match spec_rrs_at(data, p, (n - 1) as nat) {
                Err(e) => Err(e),
                Ok((rs, end)) => Ok((seq![r] + rs, end)),
            },
        }
    }
}

/// The header fields and four sections of a buffer of at least 12 bytes,
/// and the position just past the last section.
pub open spec fn spec_sections(data: Seq<u8>) -> Result<(PacketModel, int), Error> {
    match spec_questions_at(data, 12, be16(data[4], data[5]) as nat) {
        Err(e) => Err(e),
        Ok((qs, p1)) => match spec_rrs_at(data, p1, be16(data[6], data[7]) as nat) {
            Err(e) => Err(e),
            Ok((ans, p2)) => match spec_rrs_at(data, p2, be16(data[8], data[9]) as nat) {
                Err(e) => Err(e),
                Ok((auth, p3)) => match spec_rrs_at(data, p3, be16(data[10], data[11]) as nat) {
                    Err(e) => Err(e),
                    Ok((add, p4)) => Ok(
                        (
                            PacketModel {
                                transaction_id: be16(data[0], data[1]),
                                flags: be16(data[2], data[3]),
                                questions: qs,
                                answers: ans,
                                authorities: auth,
                                additionals: add,
                            },
                            p4,
                        ),
                    ),
                },
            },
        },
    }
}

/// What decoding a buffer yields: the message, or the one error that
/// aborted the parse.
pub open spec fn spec_parse(data: Seq<u8>) -> Result<PacketModel, Error> {
    if data.len() < 12 {
        Err(Error::TooShort)
    } else {
        match spec_sections(data) {
            Err(e) => Err(e),
            Ok((pm, end)) => if end == data.len() {
                Ok(pm)
            } else {
                Err(Error::TrailingData)
            },
        }
    }
}

/// Whether a byte ends a name span: the zero terminator or the first byte
/// of a compression pointer.
pub fn is_end_byte(val: &[u8]) -> (r: bool)
    requires
        val@.len() > 0,
    ensures
        r == (val@[0] == 0 || val@[0] > 63),
{
    0 == val[0] || val[0] > 63
}

/// Find the end of the encoded name span that starts at `start`.
fn label_end_from(data: &[u8], start: usize) -> (r: Result<usize, Error>)
    ensures
        match r {
            Ok(end) => label_span_end(data@, start as int) == Ok::<int, Error>(end as int) && start
                < end <= data@.len(),
            Err(e) => label_span_end(data@, start as int) == Err::<int, Error>(e),
        },
{
    let mut pos = start;
    loop
        invariant
            start <= pos,
            label_span_end(data@, start as int) == label_span_end(data@, pos as int),
        decreases data@.len() - pos,
    {
        if pos >= data.len() {
            return Err(Error::TooShort);
        }
        let len = data[pos];
        if len == 0 {
            return Ok(pos + 1);
        }
        if len >= 64 {
            if data.len() - pos >= 2 {
                return Ok(pos + 2);
            } else {
                return Err(Error::TooShort);
            }
        }
        let l = len as usize;
        if l <= data.len() - pos - 1 {
            pos = pos + 1 + l;
        } else {
            return Err(Error::TooShort);
        }
    }
}

/// Locate the name span at the start of `from`, returning its length.
///
/// The span runs up to and including the zero terminator or the two-byte
/// pointer that ends it; `from` truncated mid-name is `Error::TooShort`.
pub fn label(from: &[u8]) -> (r: Result<usize, Error>)
    ensures
        match r {
            Ok(end) => label_span_end(from@, 0) == Ok::<int, Error>(end as int) && 0 < end
                <= from@.len(),
            Err(e) => label_span_end(from@, 0) == Err::<int, Error>(e),
        },
{
    label_end_from(from, 0)
}

/// Decode the question that starts at `pos`.
fn parse_question(data: &[u8], pos: usize) -> (r: Result<(Question, usize), Error>)
    ensures
        match r {
            Ok((q, end)) => spec_question_at(data@, pos as int) == Ok::<
                (QuestionModel, int),
                Error,
            >((q@, end as int)) && pos < end <= data@.len(),
            Err(e) => spec_question_at(data@, pos as int) == Err::<(QuestionModel, int), Error>(e),
        },
{
    let end = match label_end_from(data, pos) {
        Ok(e) => e,
        Err(e) => {
            return Err(e);
        },
    };
    if data.len() - end < 4 {
        return Err(Error::TooShort);
    }
    let t = read_u16(data, end);
    let c = read_u16(data, end + 2);
    Ok(
        (
            Question {
                label_start: pos,
                label_len: end - pos,
                req_type: RrType::from_code(t),
                req_class: RrClass::from_code(c),
            },
            end + 4,
        ),
    )
}

/// Decode the resource record that starts at `pos`.
fn parse_rr(data: &[u8], pos: usize) -> (r: Result<(Rr, usize), Error>)
    ensures
        match r {
            Ok((rr, end)) => spec_rr_at(data@, pos as int) == Ok::<(RrModel, int), Error>(
                (rr@, end as int),
            ) && pos < end <= data@.len(),
            Err(e) => spec_rr_at(data@, pos as int) == Err::<(RrModel, int), Error>(e),
        },
{
    let (question, qend) = match parse_question(data, pos) {
        Ok(qe) => qe,
        Err(e) => {
            return Err(e);
        },
    };
    if data.len() - qend < 6 {
        return Err(Error::TooShort);
    }
    let ttl = read_u32(data, qend);
    let rdlen = read_u16(data, qend + 4) as usize;
    if rdlen > data.len() - qend - 6 {
        return Err(Error::RdataTruncated);
    }
    Ok((Rr { question, ttl, data_start: qend + 6, data_len: rdlen }, qend + 6 + rdlen))
}

/// Decode a whole message.
///
/// The result is exactly what `spec_parse` says of the bytes: on success a
/// `Packet` whose counts, sections and field values are pinned down by the
/// specification, and otherwise the one typed error that the specification
/// assigns to the buffer.  No input makes this function panic.
#[verifier::loop_isolation(false)]
pub fn parse(data: &[u8]) -> (r: Result<Packet, Error>)
    ensures
        match r {
            Ok(p) => spec_parse(data@) == Ok::<PacketModel, Error>(p@) && data@.len() >= 12
                && p@.questions.len() == be16(data@[4], data@[5]) && p@.answers.len() == be16(
                data@[6],
                data@[7],
            ) && p@.authorities.len() == be16(data@[8], data@[9]) && p@.additionals.len() == be16(
                data@[10],
                data@[11],
            ),
            Err(e) => spec_parse(data@) == Err::<PacketModel, Error>(e),
        },
{
    if data.len() < 12 {
        return Err(Error::TooShort);
    }
    let transaction_id = read_u16(data, 0);
    let flags = read_u16(data, 2);
    let qd = read_u16(data, 4);
    let an = read_u16(data, 6);
    let ns = read_u16(data, 8);
    let ar = read_u16(data, 10);
    let mut pos: usize = 12;

    let mut questions: Vec<Question> = Vec::new();
    let mut i: u16 = 0;
    proof {
        assert(questions_model(questions@) + Seq::<QuestionModel>::empty() =~= questions_model(
            questions@,
        ));
    }
    while i < qd
        invariant
            i <= qd,
            12 <= pos <= data@.len(),
            questions@.len() == i as int,
            spec_questions_at(data@, 12, qd as nat) == (match spec_questions_at(
                data@,
                pos as int,
                (qd - i) as nat,
            ) {
                Ok(rest) => Ok::<(Seq<QuestionModel>, int), Error>(
                    (questions_model(questions@) + rest.0, rest.1),
                ),
                Err(e) => Err::<(Seq<QuestionModel>, int), Error>(e),
            }),
        decreases qd - i,
    {
        let ghost qs_old = questions@;
        let ghost pos_old = pos as int;
        match parse_question(data, pos) {
            Err(e) => {
                return Err(e);
            },
            Ok((q, end)) => {
                questions.push(q);
                pos = end;
                i = i + 1;
                proof {
                    assert(questions_model(questions@) =~= questions_model(qs_old) + seq![q@]);
                    match spec_questions_at(data@, pos as int, (qd - i) as nat) {
                        Ok(rest) => {
                            assert(questions_model(qs_old) + (seq![q@] + rest.0)
                                =~= questions_model(questions@) + rest.0);
                        },
                        Err(_) => {},
                    }
                }
            },
        }
    }
    let ghost p1 = pos as int;
    proof {
        assert(spec_questions_at(data@, 12, qd as nat) == Ok::<(Seq<QuestionModel>, int), Error>(
            (questions_model(questions@), p1),
        ));
    }

    let mut answers: Vec<Rr> = Vec::new();
    let mut i: u16 = 0;
    proof {
        assert(rrs_model(answers@) + Seq::<RrModel>::empty() =~= rrs_model(answers@));
    }
    while i < an
        invariant
            i <= an,
            12 <= pos <= data@.len(),
            answers@.len() == i as int,
            spec_rrs_at(data@, p1, an as nat) == (match spec_rrs_at(
                data@,
                pos as int,
                (an - i) as nat,
            ) {
                Ok(rest) => Ok::<(Seq<RrModel>, int), Error>(
                    (rrs_model(answers@) + rest.0, rest.1),
                ),
                Err(e) => Err::<(Seq<RrModel>, int), Error>(e),
            }),
        decreases an - i,
    {
        let ghost rs_old = answers@;
        match parse_rr(data, pos) {
            Err(e) => {
                return Err(e);
            },
            Ok((rr, end)) => {
                answers.push(rr);
                pos = end;
                i = i + 1;
                proof {
                    assert(rrs_model(answers@) =~= rrs_model(rs_old) + seq![rr@]);
                    match spec_rrs_at(data@, pos as int, (an - i) as nat) {
                        Ok(rest) => {
                            assert(rrs_model(rs_old) + (seq![rr@] + rest.0) =~= rrs_model(answers@)
                                + rest.0);
                        },
                        Err(_) => {},
                    }
                }
            },
        }
    }
    let ghost p2 = pos as int;
    proof {
        assert(spec_rrs_at(data@, p1, an as nat) == Ok::<(Seq<RrModel>, int), Error>(
            (rrs_model(answers@), p2),
        ));
    }

    let mut authorities: Vec<Rr> = Vec::new();
    let mut i: u16 = 0;
    proof {
        assert(rrs_model(authorities@) + Seq::<RrModel>::empty() =~= rrs_model(authorities@));
    }
    while i < ns
        invariant
            i <= ns,
            12 <= pos <= data@.len(),
            authorities@.len() == i as int,
            spec_rrs_at(data@, p2, ns as nat) == (match spec_rrs_at(
                data@,
                pos as int,
                (ns - i) as nat,
            ) {
                Ok(rest) => Ok::<(Seq<RrModel>, int), Error>(
                    (rrs_model(authorities@) + rest.0, rest.1),
                ),
                Err(e) => Err::<(Seq<RrModel>, int), Error>(e),
            }),
        decreases ns - i,
    {
        let ghost rs_old = authorities@;
        match parse_rr(data, pos) {
            Err(e) => {
                return Err(e);
            },
            Ok((rr, end)) => {
                authorities.push(rr);
                pos = end;
                i = i + 1;
                proof {
                    assert(rrs_model(authorities@) =~= rrs_model(rs_old) + seq![rr@]);
                    match spec_rrs_at(data@, pos as int, (ns - i) as nat) {
                        Ok(rest) => {
                            assert(rrs_model(rs_old) + (seq![rr@] + rest.0) =~= rrs_model(
                                authorities@,
                            ) + rest.0);
                        },
                        Err(_) => {},
                    }
                }
            },
        }
    }
    let ghost p3 = pos as int;
    proof {
        assert(spec_rrs_at(data@, p2, ns as nat) == Ok::<(Seq<RrModel>, int), Error>(
            (rrs_model(authorities@), p3),
        ));
    }

    let mut additionals: Vec<Rr> = Vec::new();
    let mut i: u16 = 0;
    proof {
        assert(rrs_model(additionals@) + Seq::<RrModel>::empty() =~= rrs_model(additionals@));
    }
    while i < ar
        invariant
            i <= ar,
            12 <= pos <= data@.len(),
            additionals@.len() == i as int,
            spec_rrs_at(data@, p3, ar as nat) == (match spec_rrs_at(
                data@,
                pos as int,
                (ar - i) as nat,
            ) {
                Ok(rest) => Ok::<(Seq<RrModel>, int), Error>(
                    (rrs_model(additionals@) + rest.0, rest.1),
                ),
                Err(e) => Err::<(Seq<RrModel>, int), Error>(e),
            }),
        decreases ar - i,
    {
        let ghost rs_old = additionals@;
        match parse_rr(data, pos) {
            Err(e) => {
                return Err(e);
            },
            Ok((rr, end)) => {
                additionals.push(rr);
                pos = end;
                i = i + 1;
                proof {
                    assert(rrs_model(additionals@) =~= rrs_model(rs_old) + seq![rr@]);
                    match spec_rrs_at(data@, pos as int, (ar - i) as nat) {
                        Ok(rest) => {
                            assert(rrs_model(rs_old) + (seq![rr@] + rest.0) =~= rrs_model(
                                additionals@,
                            ) + rest.0);
                        },
                        Err(_) => {},
                    }
                }
            },
        }
    }
    let ghost p4 = pos as int;
    proof {
        assert(spec_rrs_at(data@, p3, ar as nat) == Ok::<(Seq<RrModel>, int), Error>(
            (rrs_model(additionals@), p4),
        ));
    }

    if pos != data.len() {
        return Err(Error::TrailingData);
    }
    let p = Packet { transaction_id, flags, questions, answers, authorities, additionals };
    proof {
        match spec_parse(data@) {
            Ok(pm) => {
                assert(pm =~= p@);
            },
            Err(_) => {},
        }
    }
    Ok(p)
}

impl Packet {
    /// QR bit: set when this message is a response.
    pub fn is_query(&self) -> (r: bool)
        ensures
            r == header::spec_is_response(self.flags),
    {
        header::has_bit(self.flags, 15)
    }

    /// AA bit: the answer is authoritative.
    pub fn is_authoritative(&self) -> (r: bool)
        ensures
            r == header::spec_is_authoritative(self.flags),
    {
        header::has_bit(self.flags, 10)
    }

    /// TC bit: the message was truncated in transport.
    pub fn is_truncated(&self) -> (r: bool)
        ensures
            r == header::spec_is_truncated(self.flags),
    {
        header::has_bit(self.flags, 9)
    }

    /// RD bit: the sender asks for recursion.
    pub fn is_recursion_desired(&self) -> (r: bool)
        ensures
            r == header::spec_recursion_desired(self.flags),
    {
        header::has_bit(self.flags, 8)
    }

    /// RA bit: the responder offers recursion.
    pub fn is_recursion_available(&self) -> (r: bool)
        ensures
            r == header::spec_recursion_available(self.flags),
    {
        header::has_bit(self.flags, 7)
    }

    /// The opcode field, bits 14..=11 of the flags word.
    pub fn opcode(&self) -> (r: OpCode)
        ensures
            r == header::spec_opcode(self.flags),
    {
        OpCode::from_bits(((self.flags >> 11u16) & 0xF) as u8)
    }

    /// The response-code field, bits 3..=0 of the flags word.
    pub fn rcode(&self) -> (r: RCode)
        ensures
            r == header::spec_rcode(self.flags),
    {
        RCode::from_bits((self.flags & 0xF) as u8)
    }

    /// Whether the reserved bits 6..=4 read as zero, as they must on a
    /// conformant message; callers that reject non-conformant packets
    /// check this, the parser itself does not.
    pub fn reserved_bits_are_zero(&self) -> (r: bool)
        ensures
            r == header::spec_reserved_zero(self.flags),
    {
        !header::has_bit(self.flags, 6) && !header::has_bit(self.flags, 5) && !header::has_bit(
            self.flags,
            4,
        )
    }
}

/// A question whose name span and trailing type and class fields all lie
/// inside the buffer.
pub open spec fn question_in_bounds(data: Seq<u8>, q: QuestionModel) -> bool {
    &&& 0 <= q.label_start
    &&& 1 <= q.label_len
    &&& q.label_start + q.label_len + 4 <= data.len()
}

/// A record whose owner question and payload span all lie inside the
/// buffer.
pub open spec fn rr_in_bounds(data: Seq<u8>, r: RrModel) -> bool {
    &&& question_in_bounds(data, r.question)
    &&& 0 <= r.data_len
    &&& r.question.label_start + r.question.label_len + 10 <= r.data_start
    &&& r.data_start + r.data_len <= data.len()
}

/// A name span is at least one byte and ends inside the buffer, and the
/// only error locating one can raise is `Error::TooShort`.
proof fn lemma_label_span_props(data: Seq<u8>, pos: int)
    requires
        0 <= pos <= data.len(),
    ensures
        match label_span_end(data, pos) {
            Ok(end) => pos + 1 <= end <= data.len(),
            Err(e) => e == Error::TooShort,
        },
    decreases data.len() - pos,
{
    if pos < data.len() {
        let len = data[pos] as int;
        if 0 < len < 64 && pos + 1 + len <= data.len() {
            lemma_label_span_props(data, pos + 1 + len);
        }
    }
}

/// A question takes at least 5 bytes and ends inside the buffer, and the
/// only error decoding one can raise is `Error::TooShort`.
proof fn lemma_question_at_props(data: Seq<u8>, pos: int)
    requires
        0 <= pos <= data.len(),
    ensures
        match spec_question_at(data, pos) {
            Ok(qe) => pos + 5 <= qe.1 <= data.len() && question_in_bounds(data, qe.0)
                && qe.0.label_start == pos,
            Err(e) => e == Error::TooShort,
        },
{
    lemma_label_span_props(data, pos);
}

/// A record takes at least 11 bytes and ends inside the buffer, and the
/// only errors decoding one can raise are `Error::TooShort` and
/// `Error::RdataTruncated`.
proof fn lemma_rr_at_props(data: Seq<u8>, pos: int)
    requires
        0 <= pos <= data.len(),
    ensures
        match spec_rr_at(data, pos) {
            Ok(re) => pos + 11 <= re.1 <= data.len() && rr_in_bounds(data, re.0),
            Err(e) => e == Error::TooShort || e == Error::RdataTruncated,
        },
{
    lemma_question_at_props(data, pos);
}

/// A run of `n` questions takes at least `5 * n` bytes and ends inside
/// the buffer, and can only fail with `Error::TooShort`.
proof fn lemma_questions_at_props(data: Seq<u8>, pos: int, n: nat)
    requires
        0 <= pos <= data.len(),
    ensures
        match spec_questions_at(data, pos, n) {
            Ok(qse) => pos + 5 * n <= qse.1 <= data.len() && qse.0.len() == n && forall|i: int|
                0 <= i < n ==> question_in_bounds(data, #[trigger] qse.0[i]),
            Err(e) => e == Error::TooShort,
        },
    decreases n,
{
    if n > 0 {
        lemma_question_at_props(data, pos);
        match spec_question_at(data, pos) {
            Ok((q, p)) => {
                lemma_questions_at_props(data, p, (n - 1) as nat);
                match spec_questions_at(data, p, (n - 1) as nat) {
                    Ok((qs, end)) => {
                        assert(forall|i: int|
                            1 <= i < n ==> (seq![q] + qs)[i] == qs[i - 1]);
                    },
                    Err(_) => {},
                }
            },
            Err(_) => {},
        }
    }
}

/// A run of `n` records takes at least `11 * n` bytes and ends inside the
/// buffer, and can only fail with `Error::TooShort` or
/// `Error::RdataTruncated`.
proof fn lemma_rrs_at_props(data: Seq<u8>, pos: int, n: nat)
    requires
        0 <= pos <= data.len(),
    ensures
        match spec_rrs_at(data, pos, n) {
            Ok(rse) => pos + 11 * n <= rse.1 <= data.len() && rse.0.len() == n && forall|i: int|
                0 <= i < n ==> rr_in_bounds(data, #[trigger] rse.0[i]),
            Err(e) => e == Error::TooShort || e == Error::RdataTruncated,
        },
    decreases n,
{
    if n > 0 {
        lemma_rr_at_props(data, pos);
        match spec_rr_at(data, pos) {
            Ok((r, p)) => {
                lemma_rrs_at_props(data, p, (n - 1) as nat);
                match spec_rrs_at(data, p, (n - 1) as nat) {
                    Ok((rs, end)) => {
                        assert(forall|i: int| 1 <= i < n ==> (seq![r] + rs)[i] == rs[i - 1]);
                    },
                    Err(_) => {},
                }
            },
            Err(_) => {},
        }
    }
}

/// Every span a successful parse hands out lies inside the buffer it was
/// parsed from: the name and payload offsets of each question and record
/// can be used to slice that buffer without further checks.
pub proof fn lemma_parse_spans_in_bounds(data: Seq<u8>)
    requires
        spec_parse(data) matches Ok(pm),
    ensures
        spec_parse(data) matches Ok(pm) && {
            &&& (forall|i: int|
                0 <= i < pm.questions.len() ==> question_in_bounds(
                    data,
                    #[trigger] pm.questions[i],
                ))
            &&& (forall|i: int|
                0 <= i < pm.answers.len() ==> rr_in_bounds(data, #[trigger] pm.answers[i]))
            &&& (forall|i: int|
                0 <= i < pm.authorities.len() ==> rr_in_bounds(data, #[trigger] pm.authorities[i]))
            &&& (forall|i: int|
                0 <= i < pm.additionals.len() ==> rr_in_bounds(data, #[trigger] pm.additionals[i]))
        },
{
    let qd = be16(data[4], data[5]) as nat;
    let an = be16(data[6], data[7]) as nat;
    let ns = be16(data[8], data[9]) as nat;
    let ar = be16(data[10], data[11]) as nat;
    lemma_questions_at_props(data, 12, qd);
    match spec_questions_at(data, 12, qd) {
        Err(_) => {},
        Ok((qs, p1)) => {
            lemma_rrs_at_props(data, p1, an);
            match spec_rrs_at(data, p1, an) {
                Err(_) => {},
                Ok((ans, p2)) => {
                    lemma_rrs_at_props(data, p2, ns);
                    match spec_rrs_at(data, p2, ns) {
                        Err(_) => {},
                        Ok((auth, p3)) => {
                            lemma_rrs_at_props(data, p3, ar);
                        },
                    }
                },
            }
        },
    }
}

/// A buffer whose declared section counts imply more entries than its
/// remaining bytes can hold never parses: the decoder fails with a
/// truncation error and returns nothing partial.
///
/// Every question occupies at least 5 bytes on the wire and every record
/// at least 11, so counts that outrun the buffer at those rates cannot be
/// satisfied.
pub proof fn lemma_counts_exceeding_buffer_fail(data: Seq<u8>)
    requires
        data.len() >= 12,
        12 + 5 * (be16(data[4], data[5]) as int) + 11 * ((be16(data[6], data[7]) as int) + (be16(
            data[8],
            data[9],
        ) as int) + (be16(data[10], data[11]) as int)) > data.len(),
    ensures
        spec_parse(data) matches Err(e) && (e == Error::TooShort || e == Error::RdataTruncated),
{
    let qd = be16(data[4], data[5]) as nat;
    let an = be16(data[6], data[7]) as nat;
    let ns = be16(data[8], data[9]) as nat;
    let ar = be16(data[10], data[11]) as nat;
    lemma_questions_at_props(data, 12, qd);
    match spec_questions_at(data, 12, qd) {
        Err(_) => {},
        Ok((qs, p1)) => {
            lemma_rrs_at_props(data, p1, an);
            match spec_rrs_at(data, p1, an) {
                Err(_) => {},
                Ok((ans, p2)) => {
                    lemma_rrs_at_props(data, p2, ns);
                    match spec_rrs_at(data, p2, ns) {
                        Err(_) => {},
                        Ok((auth, p3)) => {
                            lemma_rrs_at_props(data, p3, ar);
                            match spec_rrs_at(data, p3, ar) {
                                Err(_) => {},
                                Ok((add, p4)) => {
                                    assert(p4 >= 12 + 5 * qd + 11 * (an + ns + ar));
                                    assert(false);
                                },
                            }
                        },
                    }
                },
            }
        },
    }
}

/// A buffer shorter than the 12-byte header never parses: the decoder
/// fails with `Error::TooShort` and returns nothing partial.
pub proof fn lemma_short_buffer_fails(data: Seq<u8>)
    requires
        data.len() < 12,
    ensures
        spec_parse(data) == Err::<PacketModel, Error>(Error::TooShort),
{
}

/// A buffer with bytes left over after the declared additional-records
/// section never parses: the decoder fails with `Error::TrailingData`.
pub proof fn lemma_trailing_data_fails(data: Seq<u8>)
    requires
        data.len() >= 12,
        spec_sections(data) matches Ok(pe) && pe.1 != data.len(),
    ensures
        spec_parse(data) == Err::<PacketModel, Error>(Error::TrailingData),
{
}

} // verus!
