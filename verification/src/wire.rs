//! Reading and writing the big-endian integers of the wire format.
//!
//! All multi-byte fields of a message are network byte order; these helpers
//! are the one place where bytes and integers meet.

use vstd::prelude::*;

verus! {

/// The 16-bit value carried by two wire bytes, high byte first.
pub open spec fn be16(hi: u8, lo: u8) -> u16 {
    ((hi as int) * 0x100 + (lo as int)) as u16
}

/// The 32-bit value carried by four wire bytes, high byte first.
pub open spec fn be32(b0: u8, b1: u8, b2: u8, b3: u8) -> u32 {
    ((b0 as int) * 0x100_0000 + (b1 as int) * 0x1_0000 + (b2 as int) * 0x100 + (b3 as int)) as u32
}

/// The two wire bytes of a 16-bit value, high byte first.
pub open spec fn u16_bytes(v: u16) -> Seq<u8> {
    seq![(v / 0x100) as u8, (v % 0x100) as u8]
}

/// The four wire bytes of a 32-bit value, high byte first.
pub open spec fn u32_bytes(v: u32) -> Seq<u8> {
    seq![
        (v / 0x100_0000) as u8,
        ((v / 0x1_0000) % 0x100) as u8,
        ((v / 0x100) % 0x100) as u8,
        (v % 0x100) as u8,
    ]
}

/// Read the 16-bit field that starts at `pos`.
pub fn read_u16(data: &[u8], pos: usize) -> (r: u16)
    requires
        pos + 2 <= data@.len(),
    ensures
        r == be16(data@[pos as int], data@[pos + 1]),
{
    (data[pos] as u16) * 0x100 + (data[pos + 1] as u16)
}

/// Read the 32-bit field that starts at `pos`.
pub fn read_u32(data: &[u8], pos: usize) -> (r: u32)
    requires
        pos + 4 <= data@.len(),
    ensures
        r == be32(data@[pos as int], data@[pos + 1], data@[pos + 2], data@[pos + 3]),
{
    (data[pos] as u32) * 0x100_0000 + (data[pos + 1] as u32) * 0x1_0000
        + (data[pos + 2] as u32) * 0x100 + (data[pos + 3] as u32)
}

/// Append the two wire bytes of a 16-bit value.
pub fn push_u16(dat: &mut Vec<u8>, v: u16)
    ensures
        final(dat)@ == old(dat)@ + u16_bytes(v),
{
    dat.push((v / 0x100) as u8);
    dat.push((v % 0x100) as u8);
    proof {
        assert(dat@ =~= old(dat)@ + u16_bytes(v));
    }
}

/// Append the four wire bytes of a 32-bit value.
pub fn push_u32(dat: &mut Vec<u8>, v: u32)
    ensures
        final(dat)@ == old(dat)@ + u32_bytes(v),
{
    dat.push((v / 0x100_0000) as u8);
    dat.push(((v / 0x1_0000) % 0x100) as u8);
    dat.push(((v / 0x100) % 0x100) as u8);
    dat.push((v % 0x100) as u8);
    proof {
        assert(dat@ =~= old(dat)@ + u32_bytes(v));
    }
}

/// Append every byte of `src`.
pub fn push_bytes(dat: &mut Vec<u8>, src: &[u8])
    ensures
        final(dat)@ == old(dat)@ + src@,
{
    let mut k: usize = 0;
    while k < src.len()
        invariant
            k <= src@.len(),
            dat@ == old(dat)@ + src@.subrange(0, k as int),
        decreases src@.len() - k,
    {
        dat.push(src[k]);
        proof {
            assert(dat@ =~= old(dat)@ + src@.subrange(0, k + 1));
        }
        k = k + 1;
    }
    proof {
        assert(src@.subrange(0, src@.len() as int) =~= src@);
    }
}

/// Writing a 16-bit value and reading it back is the identity.
pub proof fn lemma_be16_round_trip(v: u16)
    ensures
        be16(u16_bytes(v)[0], u16_bytes(v)[1]) == v,
{
}

/// Writing a 32-bit value and reading it back is the identity.
pub proof fn lemma_be32_round_trip(v: u32)
    ensures
        be32(u32_bytes(v)[0], u32_bytes(v)[1], u32_bytes(v)[2], u32_bytes(v)[3]) == v,
{
    assert(v == (v / 0x100_0000) * 0x100_0000 + ((v / 0x1_0000) % 0x100) * 0x1_0000 + ((v / 0x100)
        % 0x100) * 0x100 + v % 0x100) by (bit_vector);
}

/// Widen a 16-bit count to a usize.
pub fn usize_from(val: u16) -> (r: usize)
    ensures
        r == val as usize,
{
    val as usize
}

} // verus!
