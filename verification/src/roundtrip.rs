//! Proofs that what the builder writes, the parser reads back.
//!
//! The builder's encoding specifications (`gen`) and the parser's decoding
//! specifications (`parse`) are defined independently, each against the
//! wire format; this module proves them inverse to each other, entry by
//! entry and for a whole message.

use vstd::prelude::*;

use crate::errors::Error;
use crate::gen::dotted_segments_nonempty;
use crate::gen::name_wire;
use crate::gen::name_wire_from;
use crate::gen::lemma_seg_end_bounds;
use crate::gen::message_wire;
use crate::gen::question_wire;
use crate::gen::rr_wire;
use crate::gen::rrs_wire;
use crate::gen::seg_end_from;
use crate::lemma_rr_class_round_trip;
use crate::lemma_rr_type_round_trip;
use crate::parse::label_span_end;
use crate::parse::spec_parse;
use crate::parse::spec_question_at;
use crate::parse::spec_questions_at;
use crate::parse::spec_rr_at;
use crate::parse::spec_rrs_at;
use crate::rr_class_wf;
use crate::rr_type_wf;
use crate::wire::lemma_be16_round_trip;
use crate::wire::lemma_be32_round_trip;
use crate::wire::u16_bytes;
use crate::wire::u32_bytes;

verus! {

/// A parsed question is the image of a builder question: same type and
/// class, and its name span holds exactly the builder's encoding of the
/// name.
pub open spec fn question_corresponds(
    data: Seq<u8>,
    m: crate::parse::QuestionModel,
    q: crate::gen::QuestionModel,
) -> bool {
    match name_wire(q.label) {
        Ok(nb) => {
            &&& m.req_type == q.req_type
            &&& m.req_class == q.req_class
            &&& 0 <= m.label_start
            &&& m.label_len == nb.len()
            &&& m.label_start + m.label_len <= data.len()
            &&& data.subrange(m.label_start, m.label_start + m.label_len) == nb
        },
        Err(_) => false,
    }
}

/// A parsed record is the image of a builder record: corresponding owner
/// question, the same time-to-live, and a payload span holding exactly the
/// builder's payload bytes.
pub open spec fn rr_corresponds(
    data: Seq<u8>,
    m: crate::parse::RrModel,
    r: crate::gen::RrModel,
) -> bool {
    &&& question_corresponds(data, m.question, r.question)
    &&& m.ttl == r.ttl
    &&& m.data_len == r.data.len()
    &&& 0 <= m.data_start
    &&& m.data_start + m.data_len <= data.len()
    &&& data.subrange(m.data_start, m.data_start + m.data_len) == r.data
}

/// A builder record whose name and codes survive the trip through the
/// wire unchanged: the name is in the resolver's dotted output form, and
/// unrecognised type and class codes do not collide with assigned ones.
pub open spec fn rr_encodable(r: crate::gen::RrModel) -> bool {
    &&& dotted_segments_nonempty(r.question.label, 0)
    &&& rr_type_wf(r.question.req_type)
    &&& rr_class_wf(r.question.req_class)
}

/// A name encoding that lies at `pos` of a larger buffer scans as one name
/// span, ending exactly where the encoding ends: the scanner never runs
/// into what follows.
proof fn lemma_name_wire_span(data: Seq<u8>, name: Seq<u8>, p: int, pos: int)
    requires
        0 <= p <= name.len(),
        dotted_segments_nonempty(name, p),
        name_wire_from(name, p) matches Ok(nb) && 0 <= pos && pos + nb.len() <= data.len()
            && data.subrange(pos, pos + nb.len()) == nb,
    ensures
        name_wire_from(name, p) matches Ok(nb) && label_span_end(data, pos) == Ok::<int, Error>(
            pos + nb.len(),
        ),
    decreases name.len() - p,
{
    lemma_seg_end_bounds(name, p);
    let e = seg_end_from(name, p);
    if e >= name.len() {
        let nb = seq![0u8];
        assert(data[pos] == data.subrange(pos, pos + 1)[0]);
    } else {
        match name_wire_from(name, e + 1) {
            Err(_) => {
                assert(false);
            },
            Ok(rest) => {
                let seg = name.subrange(p, e);
                let nb = seq![(e - p) as u8] + seg + rest;
                assert(data[pos] == data.subrange(pos, pos + nb.len())[0]);
                assert(data[pos] == (e - p) as u8);
                assert(1 <= e - p <= 63);
                let pos2 = pos + 1 + (e - p);
                assert(data.subrange(pos2, pos2 + rest.len()) =~= data.subrange(
                    pos,
                    pos + nb.len(),
                ).subrange(1 + (e - p), nb.len() as int));
                assert(nb.subrange(1 + (e - p), nb.len() as int) =~= rest);
                lemma_name_wire_span(data, name, e + 1, pos2);
            },
        }
    }
}

/// A question encoding that lies at `pos` of a larger buffer decodes as
/// one question, ending exactly where the encoding ends, with the type and
/// class that were encoded.
proof fn lemma_question_wire_at(data: Seq<u8>, q: crate::gen::QuestionModel, pos: int)
    requires
        dotted_segments_nonempty(q.label, 0),
        rr_type_wf(q.req_type),
        rr_class_wf(q.req_class),
        question_wire(q) matches Ok(qb) && 0 <= pos && pos + qb.len() <= data.len()
            && data.subrange(pos, pos + qb.len()) == qb,
    ensures
        question_wire(q) matches Ok(qb) && name_wire(q.label) matches Ok(nb) && spec_question_at(
            data,
            pos,
        ) == Ok::<(crate::parse::QuestionModel, int), Error>(
            (
                crate::parse::QuestionModel {
                    label_start: pos,
                    label_len: nb.len() as int,
                    req_type: q.req_type,
                    req_class: q.req_class,
                },
                pos + qb.len(),
            ),
        ),
{
    match name_wire(q.label) {
        Err(_) => {
            assert(false);
        },
        Ok(nb) => {
            let tc = crate::rr_type_code(q.req_type);
            let cc = crate::rr_class_code(q.req_class);
            let qb = nb + u16_bytes(tc) + u16_bytes(cc);
            assert(data.subrange(pos, pos + nb.len()) =~= nb) by {
                assert(forall|j: int|
                    0 <= j < nb.len() ==> data.subrange(pos, pos + qb.len())[j]
                        == #[trigger] nb[j]);
            }
            lemma_name_wire_span(data, q.label, 0, pos);
            let end = pos + nb.len();
            assert(data[end] == data.subrange(pos, pos + qb.len())[nb.len() as int]);
            assert(data[end + 1] == data.subrange(pos, pos + qb.len())[nb.len() as int + 1]);
            assert(data[end + 2] == data.subrange(pos, pos + qb.len())[nb.len() as int + 2]);
            assert(data[end + 3] == data.subrange(pos, pos + qb.len())[nb.len() as int + 3]);
            assert(qb[nb.len() as int] == u16_bytes(tc)[0]);
            assert(qb[nb.len() as int + 1] == u16_bytes(tc)[1]);
            assert(qb[nb.len() as int + 2] == u16_bytes(cc)[0]);
            assert(qb[nb.len() as int + 3] == u16_bytes(cc)[1]);
            lemma_be16_round_trip(tc);
            lemma_be16_round_trip(cc);
            lemma_rr_type_round_trip(tc, q.req_type);
            lemma_rr_class_round_trip(cc, q.req_class);
        },
    }
}

/// A record encoding that lies at `pos` of a larger buffer decodes as one
/// record, ending exactly where the encoding ends, with the fields that
/// were encoded and its payload span over the encoded payload.
proof fn lemma_rr_wire_at(data: Seq<u8>, r: crate::gen::RrModel, pos: int)
    requires
        rr_encodable(r),
        rr_wire(r) matches Ok(rb) && 0 <= pos && pos + rb.len() <= data.len() && data.subrange(
            pos,
            pos + rb.len(),
        ) == rb,
    ensures
        rr_wire(r) matches Ok(rb) && spec_rr_at(data, pos) matches Ok(me) && me.1 == pos
            + rb.len() && rr_corresponds(data, me.0, r),
{
    match question_wire(r.question) {
        Err(_) => {
            assert(false);
        },
        Ok(qb) => {
            let rb = qb + u32_bytes(r.ttl) + u16_bytes(r.data.len() as u16) + r.data;
            assert(data.subrange(pos, pos + qb.len()) =~= qb) by {
                assert(forall|j: int|
                    0 <= j < qb.len() ==> data.subrange(pos, pos + rb.len())[j]
                        == #[trigger] qb[j]);
            }
            lemma_question_wire_at(data, r.question, pos);
            match name_wire(r.question.label) {
                Ok(nb) => {
                    assert(data.subrange(pos, pos + nb.len()) =~= nb) by {
                        assert(forall|j: int|
                            0 <= j < nb.len() ==> data.subrange(pos, pos + rb.len())[j]
                                == #[trigger] nb[j]);
                    }
                },
                Err(_) => {},
            }
            let qend = pos + qb.len();
            assert(data[qend] == data.subrange(pos, pos + rb.len())[qb.len() as int]);
            assert(data[qend + 1] == data.subrange(pos, pos + rb.len())[qb.len() as int + 1]);
            assert(data[qend + 2] == data.subrange(pos, pos + rb.len())[qb.len() as int + 2]);
            assert(data[qend + 3] == data.subrange(pos, pos + rb.len())[qb.len() as int + 3]);
            assert(data[qend + 4] == data.subrange(pos, pos + rb.len())[qb.len() as int + 4]);
            assert(data[qend + 5] == data.subrange(pos, pos + rb.len())[qb.len() as int + 5]);
            assert(rb[qb.len() as int + 0] == u32_bytes(r.ttl)[0]);
            assert(rb[qb.len() as int + 1] == u32_bytes(r.ttl)[1]);
            assert(rb[qb.len() as int + 2] == u32_bytes(r.ttl)[2]);
            assert(rb[qb.len() as int + 3] == u32_bytes(r.ttl)[3]);
            assert(rb[qb.len() as int + 4] == u16_bytes(r.data.len() as u16)[0]);
            assert(rb[qb.len() as int + 5] == u16_bytes(r.data.len() as u16)[1]);
            lemma_be32_round_trip(r.ttl);
            lemma_be16_round_trip(r.data.len() as u16);
            assert(data.subrange(qend + 6, qend + 6 + r.data.len()) =~= r.data) by {
                assert(forall|j: int|
                    0 <= j < r.data.len() ==> data.subrange(pos, pos + rb.len())[qb.len() + 6 + j]
                        == #[trigger] r.data[j]);
            }
        },
    }
}

/// A run of record encodings that lies at `pos` of a larger buffer decodes
/// as that run of records, ending exactly where the encodings end.
proof fn lemma_rrs_wire_at(data: Seq<u8>, rs: Seq<crate::gen::RrModel>, pos: int)
    requires
        forall|i: int| 0 <= i < rs.len() ==> rr_encodable(#[trigger] rs[i]),
        rrs_wire(rs) matches Ok(bs) && 0 <= pos && pos + bs.len() <= data.len() && data.subrange(
            pos,
            pos + bs.len(),
        ) == bs,
    ensures
        rrs_wire(rs) matches Ok(bs) && spec_rrs_at(data, pos, rs.len() as nat) matches Ok(me)
            && me.1 == pos + bs.len() && me.0.len() == rs.len() && forall|i: int|
            0 <= i < rs.len() ==> rr_corresponds(data, #[trigger] me.0[i], rs[i]),
    decreases rs.len(),
{
    if rs.len() == 0 {
        assert(data.subrange(pos, pos) =~= Seq::<u8>::empty());
    } else {
        match rr_wire(rs[0]) {
            Err(_) => {
                assert(false);
            },
            Ok(b0) => {
                match rrs_wire(rs.skip(1)) {
                    Err(_) => {
                        assert(false);
                    },
                    Ok(rest) => {
                        let bs = b0 + rest;
                        assert(data.subrange(pos, pos + b0.len()) =~= b0) by {
                            assert(forall|j: int|
                                0 <= j < b0.len() ==> data.subrange(pos, pos + bs.len())[j]
                                    == #[trigger] b0[j]);
                        }
                        lemma_rr_wire_at(data, rs[0], pos);
                        let pos2 = pos + b0.len();
                        assert(data.subrange(pos2, pos2 + rest.len()) =~= rest) by {
                            assert(forall|j: int|
                                0 <= j < rest.len() ==> data.subrange(pos, pos + bs.len())[b0.len()
                                    + j] == #[trigger] rest[j]);
                        }
                        assert(forall|i: int|
                            0 <= i < rs.skip(1).len() ==> rr_encodable(#[trigger] rs.skip(1)[i]));
                        lemma_rrs_wire_at(data, rs.skip(1), pos2);
                        match spec_rr_at(data, pos) {
                            Ok(m0e) => {
                                match spec_rrs_at(data, pos2, rs.skip(1).len() as nat) {
                                    Ok(mse) => {
                                        assert(spec_rrs_at(data, pos, rs.len() as nat) == Ok::<
                                            (Seq<crate::parse::RrModel>, int),
                                            Error,
                                        >((seq![m0e.0] + mse.0, mse.1)));
                                        let ms = seq![m0e.0] + mse.0;
                                        assert(forall|i: int|
                                            0 <= i < rs.len() ==> rr_corresponds(
                                                data,
                                                #[trigger] ms[i],
                                                rs[i],
                                            )) by {
                                            assert(ms[0] == m0e.0);
                                            assert(forall|i: int|
                                                1 <= i < rs.len() ==> #[trigger] ms[i] == mse.0[i
                                                    - 1] && rs[i] == rs.skip(1)[i - 1]);
                                        }
                                    },
                                    Err(_) => {
                                        assert(false);
                                    },
                                }
                            },
                            Err(_) => {
                                assert(false);
                            },
                        }
                    },
                }
            },
        }
    }
}

/// A message the builder accepts, the parser accepts back: the same
/// transaction id and flags word, the same section counts, and, entry by
/// entry, the question and records that were put in.
///
/// The names must be in the resolver's dotted output form and unrecognised
/// type or class codes must not collide with assigned ones: the wire
/// carries nothing that could tell such values apart, so nothing else
/// survives the trip.
#[verifier::rlimit(100)]
pub proof fn lemma_build_parse_round_trip(b: crate::gen::BuilderModel)
    requires
        message_wire(b) matches Ok(bytes),
        b.question matches Some(q) ==> dotted_segments_nonempty(q.label, 0) && rr_type_wf(
            q.req_type,
        ) && rr_class_wf(q.req_class),
        forall|i: int| 0 <= i < b.answers.len() ==> rr_encodable(#[trigger] b.answers[i]),
        forall|i: int| 0 <= i < b.authorities.len() ==> rr_encodable(#[trigger] b.authorities[i]),
        forall|i: int| 0 <= i < b.additionals.len() ==> rr_encodable(#[trigger] b.additionals[i]),
    ensures
        message_wire(b) matches Ok(bytes) && spec_parse(bytes) matches Ok(pm) && {
            &&& pm.transaction_id == b.transaction_id
            &&& pm.flags == b.flags
            &&& pm.questions.len() == (if b.question is Some {
                1int
            } else {
                0int
            })
            &&& (b.question matches Some(q) ==> question_corresponds(bytes, pm.questions[0], q))
            &&& pm.answers.len() == b.answers.len()
            &&& (forall|i: int|
                0 <= i < b.answers.len() ==> rr_corresponds(
                    bytes,
                    #[trigger] pm.answers[i],
                    b.answers[i],
                ))
            &&& pm.authorities.len() == b.authorities.len()
            &&& (forall|i: int|
                0 <= i < b.authorities.len() ==> rr_corresponds(
                    bytes,
                    #[trigger] pm.authorities[i],
                    b.authorities[i],
                ))
            &&& pm.additionals.len() == b.additionals.len()
            &&& (forall|i: int|
                0 <= i < b.additionals.len() ==> rr_corresponds(
                    bytes,
                    #[trigger] pm.additionals[i],
                    b.additionals[i],
                ))
        },
{
    crate::gen::lemma_built_header(b);
    let header = u16_bytes(b.transaction_id) + u16_bytes(b.flags)
        + u16_bytes(
        if b.question is Some {
            1u16
        } else {
            0u16
        },
    ) + u16_bytes(b.answers.len() as u16) + u16_bytes(b.authorities.len() as u16) + u16_bytes(
        b.additionals.len() as u16,
    );
    assert(header.len() == 12);
    let qb = (match b.question {
        None => Seq::<u8>::empty(),
        Some(q) => match question_wire(q) {
            Ok(s) => s,
            Err(_) => Seq::<u8>::empty(),
        },
    });
    match rrs_wire(b.answers) {
        Err(_) => {
            assert(false);
        },
        Ok(ab) => {
            match rrs_wire(b.authorities) {
                Err(_) => {
                    assert(false);
                },
                Ok(ub) => {
                    match rrs_wire(b.additionals) {
                        Err(_) => {
                            assert(false);
                        },
                        Ok(db) => {
                            let bytes = header + qb + ab + ub + db;
                            assert(message_wire(b) == Ok::<Seq<u8>, Error>(bytes));
                            let p1 = 12 + qb.len() as int;
                            let p2 = p1 + ab.len() as int;
                            let p3 = p2 + ub.len() as int;
                            let p4 = p3 + db.len() as int;
                            assert(bytes.len() == p4);

                            // the question section reads back
                            match b.question {
                                None => {
                                    assert(spec_questions_at(bytes, 12, 0) == Ok::<
                                        (Seq<crate::parse::QuestionModel>, int),
                                        Error,
                                    >((Seq::empty(), p1)));
                                },
                                Some(q) => {
                                    assert(bytes.subrange(12, p1) =~= qb);
                                    lemma_question_wire_at(bytes, q, 12);
                                    match name_wire(q.label) {
                                        Ok(nb) => {
                                            assert(bytes.subrange(12, 12 + nb.len() as int) =~= nb);
                                        },
                                        Err(_) => {},
                                    }
                                    match spec_question_at(bytes, 12) {
                                        Ok(qme) => {
                                            assert(spec_questions_at(bytes, p1, 0) == Ok::<
                                                (Seq<crate::parse::QuestionModel>, int),
                                                Error,
                                            >((Seq::empty(), p1)));
                                            assert(seq![qme.0] + Seq::<
                                                crate::parse::QuestionModel,
                                            >::empty() =~= seq![qme.0]);
                                            assert(spec_questions_at(bytes, 12, 1) == Ok::<
                                                (Seq<crate::parse::QuestionModel>, int),
                                                Error,
                                            >((seq![qme.0], p1)));
                                        },
                                        Err(_) => {
                                            assert(false);
                                        },
                                    }
                                },
                            }

                            // the three record sections read back
                            assert(bytes.subrange(p1, p2) =~= ab);
                            lemma_rrs_wire_at(bytes, b.answers, p1);
                            assert(bytes.subrange(p2, p3) =~= ub);
                            lemma_rrs_wire_at(bytes, b.authorities, p2);
                            assert(bytes.subrange(p3, p4) =~= db);
                            lemma_rrs_wire_at(bytes, b.additionals, p3);
                        },
                    }
                },
            }
        },
    }
}

} // verus!
