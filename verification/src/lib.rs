//! A verified codec for the DNS wire format: decoding a message from an
//! untrusted byte buffer into a structured view, and encoding a response
//! back into wire bytes.
//!
//! The buffer is attacker-controlled, so every decode path is proved free of
//! panics and its result is pinned down exactly by the specification
//! functions in each module.

use vstd::prelude::*;

pub mod errors;
pub mod gen;
pub mod header;
pub mod label;
pub mod parse;
pub mod roundtrip;
pub mod wire;

verus! {

/// Query kind, from bits 14..=11 of the header flags word.
///
/// Codes other than the three assigned ones are carried through in
/// `Unknown`.
#[derive(Copy, Clone, Debug, PartialEq, Eq, Structural)]
pub enum OpCode {
    Query,
    IQuery,
    Status,
    Unknown(u8),
}

/// Response status, from bits 3..=0 of the header flags word.
///
/// Codes other than the six assigned ones are carried through in `Unknown`.
#[derive(Copy, Clone, Debug, PartialEq, Eq, Structural)]
pub enum RCode {
    NoError,
    FormatError,
    ServerFail,
    NxDomain,
    NotImplemented,
    Refused,
    Unknown(u8),
}

/// Record class; only Internet (code 1) is assigned.
#[derive(Copy, Clone, Debug, PartialEq, Eq, Structural)]
pub enum RrClass {
    Internet,
    Unknown(u16),
}

/// Record type; the handful of codes this codec recognises, with a
/// catch-all for the rest.
#[derive(Copy, Clone, Debug, PartialEq, Eq, Structural)]
pub enum RrType {
    A,
    Aaaa,
    Ns,
    CName,
    Mx,
    Txt,
    Srv,
    Unknown(u16),
}

/// The opcode denoted by a 4-bit field value.
pub open spec fn opcode_of(bits: u8) -> OpCode {
    let b = bits % 16;
    if b == 0 {
        OpCode::Query
    } else if b == 1 {
        OpCode::IQuery
    } else if b == 2 {
        OpCode::Status
    } else {
        OpCode::Unknown(b)
    }
}

/// The 4-bit field value denoting an opcode.
pub open spec fn opcode_mask(op: OpCode) -> u8 {
    match op {
        OpCode::Query => 0,
        OpCode::IQuery => 1,
        OpCode::Status => 2,
        OpCode::Unknown(c) => (c % 16) as u8,
    }
}

/// An opcode value that a 4-bit field can denote: `Unknown` carries only
/// codes without a name of their own.
pub open spec fn opcode_wf(op: OpCode) -> bool {
    op matches OpCode::Unknown(c) ==> 3 <= c < 16
}

/// The response code denoted by a 4-bit field value.
pub open spec fn rcode_of(bits: u8) -> RCode {
    let b = bits % 16;
    if b == 0 {
        RCode::NoError
    } else if b == 1 {
        RCode::FormatError
    } else if b == 2 {
        RCode::ServerFail
    } else if b == 3 {
        RCode::NxDomain
    } else if b == 4 {
        RCode::NotImplemented
    } else if b == 5 {
        RCode::Refused
    } else {
        RCode::Unknown(b)
    }
}

/// The 4-bit field value denoting a response code.
pub open spec fn rcode_mask(rc: RCode) -> u8 {
    match rc {
        RCode::NoError => 0,
        RCode::FormatError => 1,
        RCode::ServerFail => 2,
        RCode::NxDomain => 3,
        RCode::NotImplemented => 4,
        RCode::Refused => 5,
        RCode::Unknown(c) => (c % 16) as u8,
    }
}

/// A response code value that a 4-bit field can denote.
pub open spec fn rcode_wf(rc: RCode) -> bool {
    rc matches RCode::Unknown(c) ==> 6 <= c < 16
}

/// The record class denoted by a 16-bit wire code.
pub open spec fn rr_class_of(code: u16) -> RrClass {
    if code == 1 {
        RrClass::Internet
    } else {
        RrClass::Unknown(code)
    }
}

/// The 16-bit wire code of a record class.
pub open spec fn rr_class_code(c: RrClass) -> u16 {
    match c {
        RrClass::Internet => 1,
        RrClass::Unknown(other) => other,
    }
}

/// The record type denoted by a 16-bit wire code.
pub open spec fn rr_type_of(code: u16) -> RrType {
    if code == 1 {
        RrType::A
    } else if code == 28 {
        RrType::Aaaa
    } else if code == 2 {
        RrType::Ns
    } else if code == 5 {
        RrType::CName
    } else if code == 15 {
        RrType::Mx
    } else if code == 16 {
        RrType::Txt
    } else if code == 33 {
        RrType::Srv
    } else {
        RrType::Unknown(code)
    }
}

/// The 16-bit wire code of a record type.
pub open spec fn rr_type_code(t: RrType) -> u16 {
    match t {
        RrType::A => 1,
        RrType::Aaaa => 28,
        RrType::Ns => 2,
        RrType::CName => 5,
        RrType::Mx => 15,
        RrType::Txt => 16,
        RrType::Srv => 33,
        RrType::Unknown(other) => other,
    }
}

impl OpCode {
    /// Decode a 4-bit opcode field.
    pub fn from_bits(bits: u8) -> (r: OpCode)
        ensures
            r == opcode_of(bits),
            opcode_wf(r),
    {
        let b = bits % 16;
        if b == 0 {
            OpCode::Query
        } else if b == 1 {
            OpCode::IQuery
        } else if b == 2 {
            OpCode::Status
        } else {
            OpCode::Unknown(b)
        }
    }

    /// The 4-bit field value for this opcode, always below 16.
    pub fn mask(&self) -> (r: u8)
        ensures
            r == opcode_mask(*self),
            r < 16,
    {
        match *self {
            OpCode::Query => 0,
            OpCode::IQuery => 1,
            OpCode::Status => 2,
            OpCode::Unknown(c) => c % 16,
        }
    }
}

impl RCode {
    /// Decode a 4-bit response-code field.
    pub fn from_bits(bits: u8) -> (r: RCode)
        ensures
            r == rcode_of(bits),
            rcode_wf(r),
    {
        let b = bits % 16;
        if b == 0 {
            RCode::NoError
        } else if b == 1 {
            RCode::FormatError
        } else if b == 2 {
            RCode::ServerFail
        } else if b == 3 {
            RCode::NxDomain
        } else if b == 4 {
            RCode::NotImplemented
        } else if b == 5 {
            RCode::Refused
        } else {
            RCode::Unknown(b)
        }
    }

    /// The 4-bit field value for this response code, always below 16.
    pub fn mask(&self) -> (r: u8)
        ensures
            r == rcode_mask(*self),
            r < 16,
    {
        match *self {
            RCode::NoError => 0,
            RCode::FormatError => 1,
            RCode::ServerFail => 2,
            RCode::NxDomain => 3,
            RCode::NotImplemented => 4,
            RCode::Refused => 5,
            RCode::Unknown(c) => c % 16,
        }
    }
}

impl RrClass {
    /// Decode a 16-bit class code.
    pub fn from_code(code: u16) -> (r: RrClass)
        ensures
            r == rr_class_of(code),
    {
        if code == 1 {
            RrClass::Internet
        } else {
            RrClass::Unknown(code)
        }
    }

    /// The 16-bit wire code of this class.
    pub fn code(&self) -> (r: u16)
        ensures
            r == rr_class_code(*self),
    {
        match *self {
            RrClass::Internet => 1,
            RrClass::Unknown(other) => other,
        }
    }
}

impl RrType {
    /// Decode a 16-bit type code.
    pub fn from_code(code: u16) -> (r: RrType)
        ensures
            r == rr_type_of(code),
    {
        if code == 1 {
            RrType::A
        } else if code == 28 {
            RrType::Aaaa
        } else if code == 2 {
            RrType::Ns
        } else if code == 5 {
            RrType::CName
        } else if code == 15 {
            RrType::Mx
        } else if code == 16 {
            RrType::Txt
        } else if code == 33 {
            RrType::Srv
        } else {
            RrType::Unknown(code)
        }
    }

    /// The 16-bit wire code of this type.
    pub fn code(&self) -> (r: u16)
        ensures
            r == rr_type_code(*self),
    {
        match *self {
            RrType::A => 1,
            RrType::Aaaa => 28,
            RrType::Ns => 2,
            RrType::CName => 5,
            RrType::Mx => 15,
            RrType::Txt => 16,
            RrType::Srv => 33,
            RrType::Unknown(other) => other,
        }
    }
}

/// A record class value that a 16-bit wire code can denote: `Unknown`
/// carries only codes without a name of their own.
pub open spec fn rr_class_wf(c: RrClass) -> bool {
    c matches RrClass::Unknown(code) ==> code != 1
}

/// A record type value that a 16-bit wire code can denote.
pub open spec fn rr_type_wf(t: RrType) -> bool {
    t matches RrType::Unknown(code) ==> code != 1 && code != 2 && code != 5 && code != 15 && code
        != 16 && code != 28 && code != 33
}

/// Decoding a 16-bit class code and re-encoding it is the identity, and
/// conversely on classes that a code can denote.
pub proof fn lemma_rr_class_round_trip(code: u16, c: RrClass)
    requires
        rr_class_wf(c),
    ensures
        rr_class_code(rr_class_of(code)) == code,
        rr_class_of(rr_class_code(c)) == c,
{
}

/// Decoding a 16-bit type code and re-encoding it is the identity, and
/// conversely on types that a code can denote.
pub proof fn lemma_rr_type_round_trip(code: u16, t: RrType)
    requires
        rr_type_wf(t),
    ensures
        rr_type_code(rr_type_of(code)) == code,
        rr_type_of(rr_type_code(t)) == t,
{
}

/// Decoding a 4-bit opcode field and re-encoding it is the identity, and
/// conversely on opcodes that a field can denote.
pub proof fn lemma_opcode_round_trip(bits: u8, op: OpCode)
    requires
        bits < 16,
        opcode_wf(op),
    ensures
        opcode_mask(opcode_of(bits)) == bits,
        opcode_of(opcode_mask(op)) == op,
{
}

/// Decoding a 4-bit response-code field and re-encoding it is the identity,
/// and conversely on response codes that a field can denote.
pub proof fn lemma_rcode_round_trip(bits: u8, rc: RCode)
    requires
        bits < 16,
        rcode_wf(rc),
    ensures
        rcode_mask(rcode_of(bits)) == bits,
        rcode_of(rcode_mask(rc)) == rc,
{
}

} // verus!
