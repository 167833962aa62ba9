//! Building a response message and serialising it to wire bytes.
//!
//! A `Builder` is filled per outbound response — transaction id, response
//! code, an optional echoed question, and records — and serialised once.
//! Serialisation re-encodes each dotted name as length-prefixed segments;
//! it emits no compression.  The exact output bytes, and the exact error
//! on input the wire format cannot carry, are pinned down by `message_wire`.

use vstd::prelude::*;

use crate::RCode;
use crate::RrClass;
use crate::RrType;
use crate::errors::Error;
use crate::header;
use crate::rcode_mask;
use crate::rr_class_code;
use crate::rr_type_code;
use crate::wire::push_bytes;
use crate::wire::push_u16;
use crate::wire::push_u32;
use crate::wire::u16_bytes;
use crate::wire::u32_bytes;

verus! {

/// A question to echo into a response: a dotted name (trailing dot
/// included, as the resolver produces it) with its type and class.
#[derive(Clone, Debug)]
pub struct Question {
    label: Vec<u8>,
    req_type: RrType,
    req_class: RrClass,
}

/// A record to place in a response: an owner question, a time-to-live and
/// the payload bytes.
#[derive(Clone, Debug)]
pub struct Rr {
    pub question: Question,
    pub ttl: u32,
    pub data: Vec<u8>,
}

/// An outbound response being assembled.
#[derive(Clone, Debug)]
pub struct Builder {
    transaction_id: u16,
    flags: u16,
    question: Option<Question>,
    answers: Vec<Rr>,
    authorities: Vec<Rr>,
    additionals: Vec<Rr>,
}

/// Mathematical image of a builder `Question`.
pub ghost struct QuestionModel {
    pub label: Seq<u8>,
    pub req_type: RrType,
    pub req_class: RrClass,
}

/// Mathematical image of a builder `Rr`.
pub ghost struct RrModel {
    pub question: QuestionModel,
    pub ttl: u32,
    pub data: Seq<u8>,
}

/// Mathematical image of a `Builder`.
#[verifier::ext_equal]
pub ghost struct BuilderModel {
    pub transaction_id: u16,
    pub flags: u16,
    pub question: Option<QuestionModel>,
    pub answers: Seq<RrModel>,
    pub authorities: Seq<RrModel>,
    pub additionals: Seq<RrModel>,
}

impl View for Question {
    type V = QuestionModel;

    closed spec fn view(&self) -> QuestionModel {
        QuestionModel {
            label: self.label@,
            req_type: self.req_type,
            req_class: self.req_class,
        }
    }
}

impl View for Rr {
    type V = RrModel;

    open spec fn view(&self) -> RrModel {
        RrModel { question: self.question@, ttl: self.ttl, data: self.data@ }
    }
}

/// The models of a sequence of builder records.
pub open spec fn records_model(rs: Seq<Rr>) -> Seq<RrModel> {
    rs.map_values(|r: Rr| r@)
}

impl View for Builder {
    type V = BuilderModel;

    closed spec fn view(&self) -> BuilderModel {
        BuilderModel {
            transaction_id: self.transaction_id,
            flags: self.flags,
            question: match self.question {
                Some(q) => Some(q@),
                None => None,
            },
            answers: records_model(self.answers@),
            authorities: records_model(self.authorities@),
            additionals: records_model(self.additionals@),
        }
    }
}

/// The position of the first dot at or after `p`, or the end of the name.
pub open spec fn seg_end_from(name: Seq<u8>, p: int) -> int
    decreases name.len() - p,
{
    if p < 0 || p >= name.len() {
        name.len() as int
    } else if name[p] == 46 {
        p
    } else {
        seg_end_from(name, p + 1)
    }
}

/// `seg_end_from` lands on the first dot at or after `p`, inside bounds.
pub proof fn lemma_seg_end_bounds(name: Seq<u8>, p: int)
    requires
        0 <= p <= name.len(),
    ensures
        p <= seg_end_from(name, p) <= name.len(),
        seg_end_from(name, p) < name.len() ==> name[seg_end_from(name, p)] == 46,
        forall|k: int| p <= k < seg_end_from(name, p) ==> name[k] != 46,
    decreases name.len() - p,
{
    if p < name.len() && name[p] != 46 {
        lemma_seg_end_bounds(name, p + 1);
    }
}

/// A scan that saw no dot in `[p, j)` and a dot (or the end) at `j` found
/// `seg_end_from(name, p)`.
proof fn lemma_seg_end_scan(name: Seq<u8>, p: int, j: int)
    requires
        0 <= p <= j <= name.len(),
        forall|k: int| p <= k < j ==> name[k] != 46,
        j < name.len() ==> name[j] == 46,
    ensures
        seg_end_from(name, p) == j,
    decreases j - p,
{
    if p < j {
        lemma_seg_end_scan(name, p + 1, j);
    }
}

/// The wire encoding of the part of a dotted name that starts at `p`: each
/// dot-separated segment as a length byte and its bytes, ending in the
/// zero terminator that an empty final segment (a trailing dot, or the
/// root name itself) becomes.
///
/// A segment longer than 63 bytes cannot be carried and is
/// `Error::SegmentTooLong`; a name whose final segment is nonempty would
/// have no terminator and is `Error::UnterminatedName`.
pub open spec fn name_wire_from(name: Seq<u8>, p: int) -> Result<Seq<u8>, Error>
    decreases name.len() - p,
    via name_wire_from_decreases
{
    let e = seg_end_from(name, p);
    if e >= name.len() {
        if e == p {
            Ok(seq![0u8])
        } else {
            Err(Error::UnterminatedName)
        }
    } else if e - p > 63 {
        Err(Error::SegmentTooLong)
    } else {
        match name_wire_from(name, e + 1) {
            Err(err) => Err(err),
            Ok(rest) => Ok(seq![(e - p) as u8] + name.subrange(p, e) + rest),
        }
    }
}

#[via_fn]
proof fn name_wire_from_decreases(name: Seq<u8>, p: int) {
    if 0 <= p <= name.len() {
        lemma_seg_end_bounds(name, p);
    }
}

/// The wire encoding of a whole dotted name.
pub open spec fn name_wire(name: Seq<u8>) -> Result<Seq<u8>, Error> {
    name_wire_from(name, 0)
}

/// The wire encoding of a question: name, then type and class codes.
pub open spec fn question_wire(q: QuestionModel) -> Result<Seq<u8>, Error> {
    match name_wire(q.label) {
        Err(e) => Err(e),
        Ok(nb) => Ok(
            nb + u16_bytes(rr_type_code(q.req_type)) + u16_bytes(rr_class_code(q.req_class)),
        ),
    }
}

/// The wire encoding of one record: owner question, time-to-live, payload
/// length and payload.  A payload over 65535 bytes cannot be declared and
/// is `Error::RdataTooLong`.
pub open spec fn rr_wire(r: RrModel) -> Result<Seq<u8>, Error> {
    match question_wire(r.question) {
        Err(e) => Err(e),
        Ok(qb) => if r.data.len() > 0xffff {
            Err(Error::RdataTooLong)
        } else {
            Ok(qb + u32_bytes(r.ttl) + u16_bytes(r.data.len() as u16) + r.data)
        },
    }
}

/// The wire encoding of a run of records, in order; the first failing
/// record decides the error.
pub open spec fn rrs_wire(rs: Seq<RrModel>) -> Result<Seq<u8>, Error>
    decreases rs.len(),
{
    if rs.len() == 0 {
        Ok(Seq::empty())
    } else {
        match rr_wire(rs[0]) {
            Err(e) => Err(e),
            Ok(b) => match rrs_wire(rs.skip(1)) {
                Err(e) => Err(e),
                Ok(rest) => Ok(b + rest),
            },
        }
    }
}

/// The whole wire image of a builder: the 12-byte header with the counts
/// taken from the accumulated sections, then the question if one is set,
/// then answers, authorities and additionals in that order.
///
/// A section of more than 65535 entries cannot be counted in the header
/// and is `Error::TooManyRecords`.
pub open spec fn message_wire(b: BuilderModel) -> Result<Seq<u8>, Error> {
    if b.answers.len() > 0xffff || b.authorities.len() > 0xffff || b.additionals.len() > 0xffff {
        Err(Error::TooManyRecords)
    } else {
        let header = u16_bytes(b.transaction_id) + u16_bytes(b.flags)
            + u16_bytes(if b.question is Some { 1u16 } else { 0u16 })
            + u16_bytes(b.answers.len() as u16) + u16_bytes(b.authorities.len() as u16)
            + u16_bytes(b.additionals.len() as u16);
        let qpart = match b.question {
            None => Ok(Seq::<u8>::empty()),
            Some(q) => question_wire(q),
        };
        match qpart {
            Err(e) => Err(e),
            Ok(qb) => match rrs_wire(b.answers) {
                Err(e) => Err(e),
                Ok(ab) => match rrs_wire(b.authorities) {
                    Err(e) => Err(e),
                    Ok(ub) => match rrs_wire(b.additionals) {
                        Err(e) => Err(e),
                        Ok(db) => Ok(header + qb + ab + ub + db),
                    },
                },
            },
        }
    }
}

/// A dotted name whose segments, from position `p` on, are all nonempty —
/// no leading dot and no two dots in a row — save for the empty final
/// segment that a trailing dot leaves.
pub open spec fn dotted_segments_nonempty(name: Seq<u8>, p: int) -> bool {
    &&& (p < name.len() ==> name[p] != 46)
    &&& forall|k: int| p <= k < name.len() - 1 ==> !(name[k] == 46 && #[trigger] name[k + 1] == 46)
}

/// Encoding a dotted name and resolving the encoding is the identity:
/// what the builder writes for a name in the resolver's output form —
/// nonempty segments, trailing dot — the resolver reads back verbatim,
/// whatever buffer stands beside it and whatever the hop budget.
pub proof fn lemma_name_round_trip(packet: Seq<u8>, name: Seq<u8>, hops: nat)
    requires
        name_wire(name) matches Ok(nb),
        dotted_segments_nonempty(name, 0),
    ensures
        name_wire(name) matches Ok(nb) && crate::label::spec_decode_label(packet, nb, 0, hops)
            == Ok::<Seq<u8>, Error>(name),
{
    lemma_name_round_trip_from(packet, name, 0, hops);
    assert(name.skip(0) =~= name);
}

/// The inductive heart of `lemma_name_round_trip`, one segment at a time.
proof fn lemma_name_round_trip_from(packet: Seq<u8>, name: Seq<u8>, p: int, hops: nat)
    requires
        0 <= p <= name.len(),
        name_wire_from(name, p) matches Ok(nb),
        dotted_segments_nonempty(name, p),
    ensures
        name_wire_from(name, p) matches Ok(nb) && crate::label::spec_decode_label(
            packet,
            nb,
            0,
            hops,
        ) == Ok::<Seq<u8>, Error>(name.skip(p)),
    decreases name.len() - p,
{
    lemma_seg_end_bounds(name, p);
    let e = seg_end_from(name, p);
    if e >= name.len() {
        assert(name.skip(p) =~= Seq::<u8>::empty());
    } else {
        match name_wire_from(name, e + 1) {
            Err(_) => {
                assert(false);
            },
            Ok(rest) => {
                let seg = name.subrange(p, e);
                let nb = seq![(e - p) as u8] + seg + rest;
                assert(nb[0] == (e - p) as u8);
                assert(1 <= e - p <= 63);
                crate::label::lemma_decode_shift(packet, nb, 1 + (e - p), 0, hops);
                assert(nb.skip(1 + (e - p)) =~= rest);
                assert(dotted_segments_nonempty(name, e + 1));
                lemma_name_round_trip_from(packet, name, e + 1, hops);
                assert(nb.subrange(1, 1 + (e - p)) =~= seg);
                assert(seg + seq![46u8] + name.skip(e + 1) =~= name.skip(p));
            },
        }
    }
}

/// Append the wire encoding of a dotted name: its segments split on dots,
/// each as a length byte and its bytes.
#[verifier::loop_isolation(false)]
fn write_label(dat: &mut Vec<u8>, label: &[u8]) -> (r: Result<(), Error>)
    ensures
        match r {
            Ok(()) => name_wire(label@) matches Ok(nb) && final(dat)@ == old(dat)@ + nb,
            Err(e) => name_wire(label@) == Err::<Seq<u8>, Error>(e) && old(dat)@.is_prefix_of(
                final(dat)@,
            ),
        },
{
    let mut p: usize = 0;
    proof {
        match name_wire_from(label@, 0) {
            Ok(rest) => {
                assert(dat@.subrange(old(dat)@.len() as int, dat@.len() as int) + rest =~= rest);
            },
            Err(_) => {},
        }
        assert(old(dat)@.is_prefix_of(dat@));
    }
    loop
        invariant
            p <= label@.len(),
            old(dat)@.is_prefix_of(dat@),
            name_wire(label@) == (match name_wire_from(label@, p as int) {
                Ok(rest) => Ok::<Seq<u8>, Error>(
                    dat@.subrange(old(dat)@.len() as int, dat@.len() as int) + rest,
                ),
                Err(e) => Err::<Seq<u8>, Error>(e),
            }),
        decreases label@.len() - p,
    {
        let ghost written = dat@.subrange(old(dat)@.len() as int, dat@.len() as int);
        let mut j: usize = p;
        while j < label.len() && label[j] != 46u8
            invariant
                p <= j <= label@.len(),
                forall|k: int| p <= k < j ==> label@[k] != 46,
            decreases label@.len() - j,
        {
            j = j + 1;
        }
        proof {
            lemma_seg_end_scan(label@, p as int, j as int);
        }
        if j == label.len() {
            if j == p {
                dat.push(0u8);
                proof {
                    assert(dat@.subrange(old(dat)@.len() as int, dat@.len() as int) =~= written
                        + seq![0u8]);
                    assert(written + seq![0u8] =~= dat@.subrange(
                        old(dat)@.len() as int,
                        dat@.len() as int,
                    ));
                    assert(old(dat)@.is_prefix_of(dat@));
                }
                return Ok(());
            } else {
                return Err(Error::UnterminatedName);
            }
        }
        if j - p > 63 {
            return Err(Error::SegmentTooLong);
        }
        dat.push((j - p) as u8);
        push_bytes(dat, &label[p..j]);
        proof {
            let seg = label@.subrange(p as int, j as int);
            assert(dat@.subrange(old(dat)@.len() as int, dat@.len() as int) =~= written + (seq![
                (j - p) as u8,
            ] + seg));
            match name_wire_from(label@, j + 1) {
                Ok(rest) => {
                    assert(written + (seq![(j - p) as u8] + seg + rest) =~= (written + (seq![
                        (j - p) as u8,
                    ] + seg)) + rest);
                },
                Err(_) => {},
            }
        }
        p = j + 1;
    }
}

/// Append the wire encoding of a question.
fn write_question(dat: &mut Vec<u8>, question: &Question) -> (r: Result<(), Error>)
    ensures
        match r {
            Ok(()) => question_wire(question@) matches Ok(qb) && final(dat)@ == old(dat)@ + qb,
            Err(e) => question_wire(question@) == Err::<Seq<u8>, Error>(e)
                && old(dat)@.is_prefix_of(final(dat)@),
        },
{
    match write_label(dat, question.label.as_slice()) {
        Err(e) => {
            return Err(e);
        },
        Ok(()) => {},
    }
    push_u16(dat, question.req_type.code());
    push_u16(dat, question.req_class.code());
    proof {
        match name_wire(question@.label) {
            Ok(nb) => {
                assert(old(dat)@ + nb + u16_bytes(rr_type_code(question@.req_type)) + u16_bytes(
                    rr_class_code(question@.req_class),
                ) =~= old(dat)@ + (nb + u16_bytes(rr_type_code(question@.req_type)) + u16_bytes(
                    rr_class_code(question@.req_class),
                )));
            },
            Err(_) => {},
        }
    }
    Ok(())
}

/// Append the wire encoding of one record.
fn write_rr(dat: &mut Vec<u8>, rr: &Rr) -> (r: Result<(), Error>)
    ensures
        match r {
            Ok(()) => rr_wire(rr@) matches Ok(b) && final(dat)@ == old(dat)@ + b,
            Err(e) => rr_wire(rr@) == Err::<Seq<u8>, Error>(e) && old(dat)@.is_prefix_of(
                final(dat)@,
            ),
        },
{
    match write_question(dat, &rr.question) {
        Err(e) => {
            return Err(e);
        },
        Ok(()) => {},
    }
    push_u32(dat, rr.ttl);
    if rr.data.len() > 0xffff {
        return Err(Error::RdataTooLong);
    }
    push_u16(dat, rr.data.len() as u16);
    push_bytes(dat, rr.data.as_slice());
    proof {
        match question_wire(rr@.question) {
            Ok(qb) => {
                assert(old(dat)@ + qb + u32_bytes(rr@.ttl) + u16_bytes(rr@.data.len() as u16)
                    + rr@.data =~= old(dat)@ + (qb + u32_bytes(rr@.ttl) + u16_bytes(
                    rr@.data.len() as u16,
                ) + rr@.data));
            },
            Err(_) => {},
        }
    }
    Ok(())
}

/// Append the wire encodings of a run of records, in order.
#[verifier::loop_isolation(false)]
#[verifier::rlimit(60)]
fn write_rrs(dat: &mut Vec<u8>, rrs: &Vec<Rr>) -> (r: Result<(), Error>)
    ensures
        match r {
            Ok(()) => rrs_wire(records_model(rrs@)) matches Ok(b) && final(dat)@ == old(dat)@ + b,
            Err(e) => rrs_wire(records_model(rrs@)) == Err::<Seq<u8>, Error>(e)
                && old(dat)@.is_prefix_of(final(dat)@),
        },
{
    let ghost sec = records_model(rrs@);
    let mut k: usize = 0;
    proof {
        assert(sec.skip(0) =~= sec);
        match rrs_wire(sec) {
            Ok(rest) => {
                assert(dat@.subrange(old(dat)@.len() as int, dat@.len() as int) + rest =~= rest);
            },
            Err(_) => {},
        }
        assert(old(dat)@.is_prefix_of(dat@));
    }
    while k < rrs.len()
        invariant
            k <= rrs@.len(),
            old(dat)@.is_prefix_of(dat@),
            rrs_wire(sec) == (match rrs_wire(sec.skip(k as int)) {
                Ok(rest) => Ok::<Seq<u8>, Error>(
                    dat@.subrange(old(dat)@.len() as int, dat@.len() as int) + rest,
                ),
                Err(e) => Err::<Seq<u8>, Error>(e),
            }),
        decreases rrs@.len() - k,
    {
        let ghost written = dat@.subrange(old(dat)@.len() as int, dat@.len() as int);
        proof {
            assert(sec.skip(k as int)[0] == sec[k as int]);
            assert(sec.skip(k as int).skip(1) =~= sec.skip(k as int + 1));
            assert(sec[k as int] == rrs@[k as int]@);
        }
        match write_rr(dat, &rrs[k]) {
            Err(e) => {
                return Err(e);
            },
            Ok(()) => {},
        }
        proof {
            match rr_wire(sec[k as int]) {
                Ok(b) => {
                    assert(dat@.subrange(old(dat)@.len() as int, dat@.len() as int) =~= written
                        + b);
                    match rrs_wire(sec.skip(k as int + 1)) {
                        Ok(rest) => {
                            assert(written + (b + rest) =~= (written + b) + rest);
                        },
                        Err(_) => {},
                    }
                },
                Err(_) => {},
            }
        }
        k = k + 1;
    }
    proof {
        assert(sec.skip(rrs@.len() as int) =~= Seq::<RrModel>::empty());
        match rrs_wire(sec) {
            Ok(b) => {
                assert(dat@.subrange(old(dat)@.len() as int, dat@.len() as int) + Seq::<
                    u8,
                >::empty() =~= dat@.subrange(old(dat)@.len() as int, dat@.len() as int));
                assert(old(dat)@ + dat@.subrange(old(dat)@.len() as int, dat@.len() as int)
                    =~= dat@);
            },
            Err(_) => {},
        }
    }
    Ok(())
}

impl Question {
    /// A question over a dotted name (the resolver's output form, trailing
    /// dot included) with the given type and class.
    pub fn new(label: Vec<u8>, req_type: RrType, req_class: RrClass) -> (r: Question)
        ensures
            r@ == (QuestionModel { label: label@, req_type, req_class }),
    {
        Question { label, req_type, req_class }
    }
}

impl Default for Builder {
    /// An empty builder: zero ids and flags, no question, no records.
    fn default() -> (r: Builder)
        ensures
            r@ == (BuilderModel {
                transaction_id: 0,
                flags: 0,
                question: None,
                answers: Seq::empty(),
                authorities: Seq::empty(),
                additionals: Seq::empty(),
            }),
    {
        let b = Builder {
            transaction_id: 0,
            flags: 0,
            question: None,
            answers: Vec::new(),
            authorities: Vec::new(),
            additionals: Vec::new(),
        };
        proof {
            assert(b@ =~= (BuilderModel {
                transaction_id: 0,
                flags: 0,
                question: None,
                answers: Seq::empty(),
                authorities: Seq::empty(),
                additionals: Seq::empty(),
            }));
        }
        b
    }
}

impl Builder {
    /// Start a response correlated to `transaction_id`: the response bit
    /// is set and every other flag, section and field starts clear.
    pub fn response_to(transaction_id: u16) -> (r: Builder)
        ensures
            r@ == (BuilderModel {
                transaction_id,
                flags: 0x8000u16,
                question: None,
                answers: Seq::empty(),
                authorities: Seq::empty(),
                additionals: Seq::empty(),
            }),
            r@.flags == header::spec_flags_word(
                true,
                crate::OpCode::Query,
                false,
                false,
                false,
                false,
                RCode::NoError,
            ),
    {
        let b = Builder {
            transaction_id,
            flags: 0x8000u16,
            question: None,
            answers: Vec::new(),
            authorities: Vec::new(),
            additionals: Vec::new(),
        };
        proof {
            assert(b@ =~= (BuilderModel {
                transaction_id,
                flags: 0x8000u16,
                question: None,
                answers: Seq::empty(),
                authorities: Seq::empty(),
                additionals: Seq::empty(),
            }));
            assert((0x8000u16 | (0u16 << 11) | 0u16 | 0u16 | 0u16 | 0u16 | 0u16) == 0x8000u16)
                by (bit_vector);
        }
        b
    }

    /// Set the response code: the low four flag bits are overwritten and
    /// every other flag bit, and every other field, is left untouched.
    pub fn error(&mut self, code: RCode)
        ensures
            final(self)@ == (BuilderModel {
                flags: final(self)@.flags,
                ..old(self)@
            }),
            final(self)@.flags == ((old(self)@.flags & !0xFu16) | (rcode_mask(code) as u16)),
            header::rcode_bits(final(self)@.flags) == rcode_mask(code),
            header::spec_rcode(final(self)@.flags) == crate::rcode_of(rcode_mask(code)),
            header::spec_is_response(final(self)@.flags) == header::spec_is_response(
                old(self)@.flags,
            ),
            header::opcode_bits(final(self)@.flags) == header::opcode_bits(old(self)@.flags),
            header::spec_is_authoritative(final(self)@.flags) == header::spec_is_authoritative(
                old(self)@.flags,
            ),
            header::spec_is_truncated(final(self)@.flags) == header::spec_is_truncated(
                old(self)@.flags,
            ),
            header::spec_recursion_desired(final(self)@.flags) == header::spec_recursion_desired(
                old(self)@.flags,
            ),
            header::spec_recursion_available(final(self)@.flags)
                == header::spec_recursion_available(old(self)@.flags),
            header::spec_reserved_zero(final(self)@.flags) == header::spec_reserved_zero(
                old(self)@.flags,
            ),
    {
        let ghost w = self.flags;
        let rc = code.mask();
        self.flags = (self.flags & !0xFu16) | (rc as u16);
        proof {
            let rc16 = rc as u16;
            let w2 = (w & !0xFu16) | rc16;
            assert({
                &&& (w2 & 0xF) == rc16
                &&& ((w2 >> 15) & 1) == ((w >> 15) & 1)
                &&& ((w2 >> 11) & 0xF) == ((w >> 11) & 0xF)
                &&& ((w2 >> 10) & 1) == ((w >> 10) & 1)
                &&& ((w2 >> 9) & 1) == ((w >> 9) & 1)
                &&& ((w2 >> 8) & 1) == ((w >> 8) & 1)
                &&& ((w2 >> 7) & 1) == ((w >> 7) & 1)
                &&& ((w2 >> 6) & 1) == ((w >> 6) & 1)
                &&& ((w2 >> 5) & 1) == ((w >> 5) & 1)
                &&& ((w2 >> 4) & 1) == ((w >> 4) & 1)
            })
                by (bit_vector)
                requires
                    rc16 < 16,
                    w2 == (w & !0xFu16) | rc16,
            ;
            assert(final(self)@ =~= (BuilderModel { flags: final(self)@.flags, ..old(self)@ }));
        }
    }

    /// Attach, or detach, the one question the response echoes.
    pub fn set_query(&mut self, question: Option<Question>)
        ensures
            final(self)@ == (BuilderModel {
                question: match question {
                    Some(q) => Some(q@),
                    None => None,
                },
                ..old(self)@
            }),
    {
        self.question = question;
        proof {
            assert(final(self)@ =~= (BuilderModel {
                question: final(self)@.question,
                ..old(self)@
            }));
        }
    }

    /// Append one record to the answer section.
    pub fn add_answer(&mut self, rr: Rr)
        ensures
            final(self)@ == (BuilderModel {
                answers: old(self)@.answers.push(rr@),
                ..old(self)@
            }),
    {
        let ghost rrm = rr@;
        self.answers.push(rr);
        proof {
            assert(records_model(self.answers@) =~= old(self)@.answers.push(rrm));
            assert(final(self)@ =~= (BuilderModel {
                answers: old(self)@.answers.push(rrm),
                ..old(self)@
            }));
        }
    }

    /// Serialise the response into fresh wire bytes: exactly the bytes of
    /// `message_wire`, or its error when a section, segment or payload
    /// cannot be carried.
    pub fn build(&self) -> (r: Result<Vec<u8>, Error>)
        ensures
            match r {
                Ok(v) => message_wire(self@) == Ok::<Seq<u8>, Error>(v@),
                Err(e) => message_wire(self@) == Err::<Seq<u8>, Error>(e),
            },
    {
        let mut dat: Vec<u8> = Vec::new();
        match self.append(&mut dat) {
            Err(e) => Err(e),
            Ok(()) => {
                proof {
                    match message_wire(self@) {
                        Ok(bytes) => {
                            assert(Seq::<u8>::empty() + bytes =~= bytes);
                        },
                        Err(_) => {},
                    }
                }
                Ok(dat)
            },
        }
    }

    /// Append the response's wire bytes to `dat`: the 12-byte header with
    /// counts taken from the sections, then question, answers, authorities
    /// and additionals.  On failure `dat` keeps what was already written,
    /// its old contents first.
    #[verifier::rlimit(60)]
    pub fn append(&self, dat: &mut Vec<u8>) -> (r: Result<(), Error>)
        ensures
            match r {
                Ok(()) => message_wire(self@) matches Ok(bytes) && final(dat)@ == old(dat)@
                    + bytes,
                Err(e) => message_wire(self@) == Err::<Seq<u8>, Error>(e)
                    && old(dat)@.is_prefix_of(final(dat)@),
            },
    {
        if self.answers.len() > 0xffff || self.authorities.len() > 0xffff
            || self.additionals.len() > 0xffff {
            proof {
                assert(old(dat)@.is_prefix_of(dat@));
            }
            return Err(Error::TooManyRecords);
        }
        let qcount: u16 = match &self.question {
            Some(_) => 1,
            None => 0,
        };
        push_u16(dat, self.transaction_id);
        push_u16(dat, self.flags);
        push_u16(dat, qcount);
        push_u16(dat, self.answers.len() as u16);
        push_u16(dat, self.authorities.len() as u16);
        push_u16(dat, self.additionals.len() as u16);
        let ghost header_bytes = u16_bytes(self@.transaction_id) + u16_bytes(self@.flags)
            + u16_bytes(if self@.question is Some { 1u16 } else { 0u16 })
            + u16_bytes(self@.answers.len() as u16) + u16_bytes(self@.authorities.len() as u16)
            + u16_bytes(self@.additionals.len() as u16);
        proof {
            assert(dat@ =~= old(dat)@ + header_bytes);
            assert(old(dat)@.is_prefix_of(dat@));
        }
        match &self.question {
            Some(q) => {
                match write_question(dat, q) {
                    Err(e) => {
                        proof {
                            assert(old(dat)@.is_prefix_of(dat@));
                        }
                        return Err(e);
                    },
                    Ok(()) => {},
                }
            },
            None => {},
        }
        let ghost qb = (match self@.question {
            None => Seq::<u8>::empty(),
            Some(q) => match question_wire(q) {
                Ok(s) => s,
                Err(_) => Seq::<u8>::empty(),
            },
        });
        proof {
            assert(dat@ =~= old(dat)@ + header_bytes + qb);
            assert(old(dat)@.is_prefix_of(dat@));
        }
        match write_rrs(dat, &self.answers) {
            Err(e) => {
                proof {
                    assert(old(dat)@.is_prefix_of(dat@));
                }
                return Err(e);
            },
            Ok(()) => {},
        }
        let ghost ab = (match rrs_wire(self@.answers) {
            Ok(s) => s,
            Err(_) => Seq::<u8>::empty(),
        });
        proof {
            assert(dat@ =~= old(dat)@ + header_bytes + qb + ab);
            assert(old(dat)@.is_prefix_of(dat@));
        }
        match write_rrs(dat, &self.authorities) {
            Err(e) => {
                proof {
                    assert(old(dat)@.is_prefix_of(dat@));
                }
                return Err(e);
            },
            Ok(()) => {},
        }
        let ghost ub = (match rrs_wire(self@.authorities) {
            Ok(s) => s,
            Err(_) => Seq::<u8>::empty(),
        });
        proof {
            assert(dat@ =~= old(dat)@ + header_bytes + qb + ab + ub);
            assert(old(dat)@.is_prefix_of(dat@));
        }
        match write_rrs(dat, &self.additionals) {
            Err(e) => {
                proof {
                    assert(old(dat)@.is_prefix_of(dat@));
                }
                return Err(e);
            },
            Ok(()) => {},
        }
        proof {
            match rrs_wire(self@.additionals) {
                Ok(db) => {
                    assert(dat@ =~= old(dat)@ + header_bytes + qb + ab + ub + db);
                    assert(old(dat)@ + header_bytes + qb + ab + ub + db =~= old(dat)@ + (
                    header_bytes + qb + ab + ub + db));
                },
                Err(_) => {},
            }
        }
        Ok(())
    }
}

/// The header of every successfully built message carries the builder's
/// transaction id and flags word verbatim, and counts that match the
/// sections: what the builder serialises, a header decode reads back.
pub proof fn lemma_built_header(b: BuilderModel)
    requires
        message_wire(b) matches Ok(bytes),
    ensures
        message_wire(b) matches Ok(bytes) && {
            &&& bytes.len() >= 12
            &&& crate::wire::be16(bytes[0], bytes[1]) == b.transaction_id
            &&& crate::wire::be16(bytes[2], bytes[3]) == b.flags
            &&& crate::wire::be16(bytes[4], bytes[5]) == (if b.question is Some {
                1u16
            } else {
                0u16
            })
            &&& crate::wire::be16(bytes[6], bytes[7]) == b.answers.len() as u16
            &&& crate::wire::be16(bytes[8], bytes[9]) == b.authorities.len() as u16
            &&& crate::wire::be16(bytes[10], bytes[11]) == b.additionals.len() as u16
        },
{
    crate::wire::lemma_be16_round_trip(b.transaction_id);
    crate::wire::lemma_be16_round_trip(b.flags);
    crate::wire::lemma_be16_round_trip(if b.question is Some { 1u16 } else { 0u16 });
    crate::wire::lemma_be16_round_trip(b.answers.len() as u16);
    crate::wire::lemma_be16_round_trip(b.authorities.len() as u16);
    crate::wire::lemma_be16_round_trip(b.additionals.len() as u16);
}

/// Overwrite the start of a received query in place with the 12-byte
/// header of a minimal reply to it: the response bit set, the opcode and
/// recursion-desired bits echoed from the query, the given response code,
/// and all four section counts zero.  Bytes past the header are untouched;
/// the reply to send is the first 12 bytes.
#[verifier::loop_isolation(false)]
pub fn short_reply(buf: &mut Vec<u8>, recursion_available: bool, rcode: u8)
    requires
        old(buf)@.len() >= 12,
        rcode < 6,
    ensures
        final(buf)@.len() == old(buf)@.len(),
        final(buf)@[0] == old(buf)@[0],
        final(buf)@[1] == old(buf)@[1],
        final(buf)@[2] == (0x80u8 | (old(buf)@[2] & 0x78u8) | (old(buf)@[2] & 0x01u8)),
        final(buf)@[3] == (if recursion_available {
            (rcode | 0x80u8)
        } else {
            rcode
        }),
        forall|i: int| 4 <= i < 12 ==> final(buf)@[i] == 0u8,
        forall|i: int| 12 <= i < old(buf)@.len() ==> final(buf)@[i] == old(buf)@[i],
{
    let b2 = buf[2];
    buf[2] = 0x80u8 | (b2 & 0x78u8) | (b2 & 0x01u8);
    let mut b3 = rcode;
    if recursion_available {
        b3 = b3 | 0x80u8;
    }
    buf[3] = b3;
    let mut i: usize = 4;
    while i < 12
        invariant
            4 <= i <= 12,
            buf@.len() == old(buf)@.len(),
            buf@[0] == old(buf)@[0],
            buf@[1] == old(buf)@[1],
            buf@[2] == (0x80u8 | (old(buf)@[2] & 0x78u8) | (old(buf)@[2] & 0x01u8)),
            buf@[3] == (if recursion_available {
                (rcode | 0x80u8)
            } else {
                rcode
            }),
            forall|k: int| 4 <= k < i ==> buf@[k] == 0u8,
            forall|k: int| i <= k < old(buf)@.len() ==> buf@[k] == old(buf)@[k],
        decreases 12 - i,
    {
        buf[i] = 0u8;
        i = i + 1;
    }
}

} // verus!
