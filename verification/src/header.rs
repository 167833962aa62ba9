//! The 16-bit flags bitfield of the fixed message header.
//!
//! The layout lives here and nowhere else: named extractors for every
//! field, one constructor that packs them back, and proofs that the two
//! are inverse to each other.
//!
//! Layout, from the high bit down: QR (bit 15, set on responses), opcode
//! (bits 14..=11), authoritative answer (bit 10), truncated (bit 9),
//! recursion desired (bit 8), recursion available (bit 7), reserved
//! (bits 6..=4, zero on conformant messages), response code (bits 3..=0).

use vstd::prelude::*;

use crate::OpCode;
use crate::RCode;
use crate::opcode_mask;
use crate::opcode_of;
use crate::opcode_wf;
use crate::rcode_mask;
use crate::rcode_of;
use crate::rcode_wf;

verus! {

/// Whether bit `bit` of `flags` is set.
pub open spec fn spec_has_bit(flags: u16, bit: u16) -> bool {
    (flags >> bit) & 1 == 1
}

/// QR: set on responses, clear on queries.
pub open spec fn spec_is_response(flags: u16) -> bool {
    spec_has_bit(flags, 15)
}

/// The raw 4-bit opcode field.
pub open spec fn opcode_bits(flags: u16) -> u8 {
    ((flags >> 11) & 0xF) as u8
}

/// The opcode field, decoded.
pub open spec fn spec_opcode(flags: u16) -> OpCode {
    opcode_of(opcode_bits(flags))
}

/// AA: the answer is authoritative.
pub open spec fn spec_is_authoritative(flags: u16) -> bool {
    spec_has_bit(flags, 10)
}

/// TC: the message was truncated in transport.
pub open spec fn spec_is_truncated(flags: u16) -> bool {
    spec_has_bit(flags, 9)
}

/// RD: the sender asks for recursion.
pub open spec fn spec_recursion_desired(flags: u16) -> bool {
    spec_has_bit(flags, 8)
}

/// RA: the responder offers recursion.
pub open spec fn spec_recursion_available(flags: u16) -> bool {
    spec_has_bit(flags, 7)
}

/// The reserved bits 6..=4 all read as zero.
pub open spec fn spec_reserved_zero(flags: u16) -> bool {
    !spec_has_bit(flags, 6) && !spec_has_bit(flags, 5) && !spec_has_bit(flags, 4)
}

/// The raw 4-bit response-code field.
pub open spec fn rcode_bits(flags: u16) -> u8 {
    (flags & 0xF) as u8
}

/// The response-code field, decoded.
pub open spec fn spec_rcode(flags: u16) -> RCode {
    rcode_of(rcode_bits(flags))
}

/// The flags word packing the given fields, with the reserved bits zero.
pub open spec fn spec_flags_word(
    response: bool,
    opcode: OpCode,
    authoritative: bool,
    truncated: bool,
    recursion_desired: bool,
    recursion_available: bool,
    rcode: RCode,
) -> u16 {
    (if response { 0x8000u16 } else { 0u16 })
        | ((opcode_mask(opcode) as u16) << 11)
        | (if authoritative { 0x400u16 } else { 0u16 })
        | (if truncated { 0x200u16 } else { 0u16 })
        | (if recursion_desired { 0x100u16 } else { 0u16 })
        | (if recursion_available { 0x80u16 } else { 0u16 })
        | (rcode_mask(rcode) as u16)
}

/// Whether bit `bit` of `flags` is set.
pub fn has_bit(flags: u16, bit: u8) -> (r: bool)
    requires
        bit < 16,
    ensures
        r == spec_has_bit(flags, bit as u16),
{
    let b = bit as u16;
    let r = (flags & (1u16 << b)) == (1u16 << b);
    proof {
        assert(((flags & (1u16 << b)) == (1u16 << b)) == ((flags >> b) & 1 == 1))
            by (bit_vector)
            requires
                b < 16,
        ;
    }
    r
}

/// Pack header fields into a flags word; the reserved bits come out zero.
pub fn flags_word(
    response: bool,
    opcode: OpCode,
    authoritative: bool,
    truncated: bool,
    recursion_desired: bool,
    recursion_available: bool,
    rcode: RCode,
) -> (r: u16)
    ensures
        r == spec_flags_word(
            response,
            opcode,
            authoritative,
            truncated,
            recursion_desired,
            recursion_available,
            rcode,
        ),
{
    let op = opcode.mask();
    let rc = rcode.mask();
    (if response { 0x8000u16 } else { 0u16 })
        | ((op as u16) << 11u16)
        | (if authoritative { 0x400u16 } else { 0u16 })
        | (if truncated { 0x200u16 } else { 0u16 })
        | (if recursion_desired { 0x100u16 } else { 0u16 })
        | (if recursion_available { 0x80u16 } else { 0u16 })
        | (rc as u16)
}

/// Every field read back from a packed flags word is the field that went
/// in, for any combination of response bit, opcode, AA, TC, RD, RA and
/// response code; and the packed word has its reserved bits zero.
pub proof fn lemma_flags_round_trip(
    response: bool,
    opcode: OpCode,
    authoritative: bool,
    truncated: bool,
    recursion_desired: bool,
    recursion_available: bool,
    rcode: RCode,
)
    requires
        opcode_wf(opcode),
        rcode_wf(rcode),
    ensures
        ({
            let w = spec_flags_word(
                response,
                opcode,
                authoritative,
                truncated,
                recursion_desired,
                recursion_available,
                rcode,
            );
            &&& spec_is_response(w) == response
            &&& spec_opcode(w) == opcode
            &&& spec_is_authoritative(w) == authoritative
            &&& spec_is_truncated(w) == truncated
            &&& spec_recursion_desired(w) == recursion_desired
            &&& spec_recursion_available(w) == recursion_available
            &&& spec_rcode(w) == rcode
            &&& spec_reserved_zero(w)
        }),
{
    let qr: u16 = if response { 1 } else { 0 };
    let aa: u16 = if authoritative { 1 } else { 0 };
    let tc: u16 = if truncated { 1 } else { 0 };
    let rd: u16 = if recursion_desired { 1 } else { 0 };
    let ra: u16 = if recursion_available { 1 } else { 0 };
    let op: u16 = opcode_mask(opcode) as u16;
    let rc: u16 = rcode_mask(rcode) as u16;
    let w = spec_flags_word(
        response,
        opcode,
        authoritative,
        truncated,
        recursion_desired,
        recursion_available,
        rcode,
    );
    assert(w == (if qr == 1 { 0x8000u16 } else { 0u16 }) | (op << 11)
        | (if aa == 1 { 0x400u16 } else { 0u16 }) | (if tc == 1 { 0x200u16 } else { 0u16 })
        | (if rd == 1 { 0x100u16 } else { 0u16 }) | (if ra == 1 { 0x80u16 } else { 0u16 }) | rc);
    assert({
        let v = (if qr == 1 { 0x8000u16 } else { 0u16 }) | (op << 11)
            | (if aa == 1 { 0x400u16 } else { 0u16 }) | (if tc == 1 { 0x200u16 } else { 0u16 })
            | (if rd == 1 { 0x100u16 } else { 0u16 }) | (if ra == 1 { 0x80u16 } else { 0u16 })
            | rc;
        &&& ((v >> 15) & 1) == qr
        &&& ((v >> 11) & 0xF) == op
        &&& ((v >> 10) & 1) == aa
        &&& ((v >> 9) & 1) == tc
        &&& ((v >> 8) & 1) == rd
        &&& ((v >> 7) & 1) == ra
        &&& ((v >> 6) & 1) == 0
        &&& ((v >> 5) & 1) == 0
        &&& ((v >> 4) & 1) == 0
        &&& (v & 0xF) == rc
    })
        by (bit_vector)
        requires
            qr <= 1 && aa <= 1 && tc <= 1 && rd <= 1 && ra <= 1 && op < 16 && rc < 16,
    ;
    crate::lemma_opcode_round_trip(opcode_mask(opcode), opcode);
    crate::lemma_rcode_round_trip(rcode_mask(rcode), rcode);
}

/// A flags word whose reserved bits are zero is reproduced exactly by
/// packing the fields read from it: serialising a decoded header flags
/// word is the identity.
pub proof fn lemma_flags_word_identity(w: u16)
    requires
        spec_reserved_zero(w),
    ensures
        spec_flags_word(
            spec_is_response(w),
            spec_opcode(w),
            spec_is_authoritative(w),
            spec_is_truncated(w),
            spec_recursion_desired(w),
            spec_recursion_available(w),
            spec_rcode(w),
        ) == w,
{
    let op: u16 = (w >> 11) & 0xF;
    let rc: u16 = w & 0xF;
    assert(((w >> 11) & 0xF) < 16 && (w & 0xF) < 16) by (bit_vector);
    crate::lemma_opcode_round_trip(op as u8, spec_opcode(w));
    crate::lemma_rcode_round_trip(rc as u8, spec_rcode(w));
    assert(opcode_mask(spec_opcode(w)) == op as u8);
    assert(rcode_mask(spec_rcode(w)) == rc as u8);
    assert((if ((w >> 15) & 1 == 1) { 0x8000u16 } else { 0u16 }) | (((w >> 11) & 0xF) << 11)
        | (if ((w >> 10) & 1 == 1) { 0x400u16 } else { 0u16 })
        | (if ((w >> 9) & 1 == 1) { 0x200u16 } else { 0u16 })
        | (if ((w >> 8) & 1 == 1) { 0x100u16 } else { 0u16 })
        | (if ((w >> 7) & 1 == 1) { 0x80u16 } else { 0u16 }) | (w & 0xF) == w)
        by (bit_vector)
        requires
            !((w >> 6) & 1 == 1) && !((w >> 5) & 1 == 1) && !((w >> 4) & 1 == 1),
    ;
}

} // verus!
