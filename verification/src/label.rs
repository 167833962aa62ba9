//! Resolving a wire-format name into its dotted presentation form.
//!
//! A name is a run of length-prefixed segments ended by a zero byte or by a
//! two-byte compression pointer whose low 14 bits are an absolute offset
//! into the message buffer.  The buffer is untrusted: pointers may run past
//! the end, point at garbage, or form a cycle, so resolution carries an
//! explicit hop budget and fails closed once it is spent.

use vstd::prelude::*;

use crate::errors::Error;

verus! {

/// How many compression pointers one name may follow before resolution
/// fails with `Error::CompressionLoop`.
pub const POINTER_HOP_LIMIT: usize = 16;

/// The dotted form of the name that starts at `pos` of `cur`, where
/// compression pointers lead into `packet` and at most `hops` of them may
/// be followed.
///
/// Each literal segment contributes its bytes followed by a dot, so a
/// fully resolved name carries a trailing dot; the empty (root) name
/// resolves to the empty byte string.
pub open spec fn spec_decode_label(packet: Seq<u8>, cur: Seq<u8>, pos: int, hops: nat) -> Result<
    Seq<u8>,
    Error,
>
    decreases hops, cur.len() - pos,
{
    if pos < 0 || pos >= cur.len() {
        Err(Error::LabelOutOfBounds)
    } else {
        let len = cur[pos] as int;
        if len == 0 {
            Ok(Seq::empty())
        } else if len < 64 {
            if pos + 1 + len <= cur.len() {
                match spec_decode_label(packet, cur, pos + 1 + len, hops) {
                    Ok(rest) => Ok(cur.subrange(pos + 1, pos + 1 + len) + seq![46u8] + rest),
                    Err(e) => Err(e),
                }
            } else {
                Err(Error::LabelOutOfBounds)
            }
        } else if len >= 192 {
            if pos + 2 > cur.len() {
                Err(Error::LabelOutOfBounds)
            } else if hops == 0 {
                Err(Error::CompressionLoop)
            } else {
                let off = (len - 192) * 256 + cur[pos + 1];
                if off < packet.len() {
                    spec_decode_label(packet, packet, off, (hops - 1) as nat)
                } else {
                    Err(Error::LabelOutOfBounds)
                }
            }
        } else {
            Err(Error::MalformedLabel)
        }
    }
}

/// Resolve the name encoded at the start of `label` into dotted form.
///
/// `label` is the encoded span (usually a slice of `packet`); compression
/// pointers are absolute offsets into `packet`.  Resolution follows at
/// most `POINTER_HOP_LIMIT` pointers, reads no byte outside the two
/// slices, and never panics, whatever the buffers hold.
pub fn decode_label(label: &[u8], packet: &[u8]) -> (r: Result<Vec<u8>, Error>)
    ensures
        match r {
            Ok(v) => spec_decode_label(packet@, label@, 0, POINTER_HOP_LIMIT as nat) == Ok::<
                Seq<u8>,
                Error,
            >(v@),
            Err(e) => spec_decode_label(packet@, label@, 0, POINTER_HOP_LIMIT as nat) == Err::<
                Seq<u8>,
                Error,
            >(e),
        },
{
    let ghost goal = spec_decode_label(packet@, label@, 0, POINTER_HOP_LIMIT as nat);
    let mut ret: Vec<u8> = Vec::new();
    let mut cur: &[u8] = label;
    let mut pos: usize = 0;
    let mut hops: usize = POINTER_HOP_LIMIT;
    proof {
        match goal {
            Ok(rest) => {
                assert(ret@ + rest =~= rest);
            },
            Err(_) => {},
        }
    }
    loop
        invariant
            goal == spec_decode_label(packet@, label@, 0, POINTER_HOP_LIMIT as nat),
            goal == (match spec_decode_label(packet@, cur@, pos as int, hops as nat) {
                Ok(rest) => Ok::<Seq<u8>, Error>(ret@ + rest),
                Err(e) => Err::<Seq<u8>, Error>(e),
            }),
        decreases hops, cur@.len() - pos,
    {
        if pos >= cur.len() {
            return Err(Error::LabelOutOfBounds);
        }
        let len = cur[pos];
        if len == 0 {
            proof {
                assert(ret@ + Seq::<u8>::empty() =~= ret@);
            }
            return Ok(ret);
        } else if len < 64 {
            let seg_len = len as usize;
            let cur_len = cur.len();
            if seg_len > cur_len - pos - 1 {
                return Err(Error::LabelOutOfBounds);
            }
            let ghost ret_before = ret@;
            let mut j: usize = 0;
            while j < seg_len
                invariant
                    j <= seg_len,
                    pos + 1 + seg_len <= cur@.len(),
                    cur@.len() <= usize::MAX,
                    ret@ == ret_before + cur@.subrange(pos as int + 1, pos + 1 + j),
                decreases seg_len - j,
            {
                ret.push(cur[pos + 1 + j]);
                proof {
                    assert(ret@ =~= ret_before + cur@.subrange(pos as int + 1, pos + 1 + j + 1));
                }
                j += 1;
            }
            ret.push(46u8);
            proof {
                let seg = cur@.subrange(pos as int + 1, pos + 1 + seg_len);
                assert(ret@ =~= ret_before + (seg + seq![46u8]));
                match spec_decode_label(packet@, cur@, pos + 1 + seg_len, hops as nat) {
                    Ok(rest) => {
                        assert(ret_before + (seg + seq![46u8] + rest) =~= ret@ + rest);
                    },
                    Err(_) => {},
                }
            }
            pos = pos + 1 + seg_len;
        } else if len >= 192 {
            if cur.len() - pos < 2 {
                return Err(Error::LabelOutOfBounds);
            }
            if hops == 0 {
                return Err(Error::CompressionLoop);
            }
            let off = ((len - 192) as usize) * 256 + (cur[pos + 1] as usize);
            if off >= packet.len() {
                return Err(Error::LabelOutOfBounds);
            }
            cur = packet;
            pos = off;
            hops = hops - 1;
        } else {
            return Err(Error::MalformedLabel);
        }
    }
}

/// Resolution from a position inside a span reads the same bytes as
/// resolution of the suffix that starts there: only compression pointers
/// ever look outside the span, and those lead into `packet` either way.
pub proof fn lemma_decode_shift(packet: Seq<u8>, cur: Seq<u8>, d: int, pos: int, hops: nat)
    requires
        0 <= d <= cur.len(),
        0 <= pos,
    ensures
        spec_decode_label(packet, cur, d + pos, hops) == spec_decode_label(
            packet,
            cur.skip(d),
            pos,
            hops,
        ),
    decreases hops, cur.len() - d - pos,
{
    if d + pos < cur.len() {
        let len = cur[d + pos] as int;
        assert(cur.skip(d)[pos] == cur[d + pos]);
        if 0 < len < 64 && d + pos + 1 + len <= cur.len() {
            assert(cur.subrange(d + pos + 1, d + pos + 1 + len) =~= cur.skip(d).subrange(
                pos + 1,
                pos + 1 + len,
            ));
            lemma_decode_shift(packet, cur, d, pos + 1 + len, hops);
        }
        if len >= 192 && d + pos + 2 <= cur.len() {
            assert(cur.skip(d)[pos + 1] == cur[d + pos + 1]);
        }
    }
}

/// The offset that the name starting at `p` hands resolution on to: the
/// target of the compression pointer that ends the name's literal
/// segments, if the name ends in a well-formed, in-bounds pointer.
pub open spec fn pointer_target_from(packet: Seq<u8>, p: int) -> Option<int>
    decreases packet.len() - p,
{
    if p < 0 || p >= packet.len() {
        None
    } else {
        let len = packet[p] as int;
        if len == 0 {
            None
        } else if len < 64 {
            if p + 1 + len <= packet.len() {
                pointer_target_from(packet, p + 1 + len)
            } else {
                None
            }
        } else if len >= 192 {
            if p + 2 <= packet.len() {
                let off = (len - 192) * 256 + packet[p + 1];
                if off < packet.len() {
                    Some(off)
                } else {
                    None
                }
            } else {
                None
            }
        } else {
            None
        }
    }
}

/// A name that hands resolution on to a target offset resolves as that
/// target does, one hop poorer — or fails with `Error::CompressionLoop`
/// at the pointer when the budget is already spent.
proof fn lemma_decode_pointer_err(packet: Seq<u8>, p: int, hops: nat, e: Error)
    requires
        pointer_target_from(packet, p) matches Some(t) && (hops > 0 ==> spec_decode_label(
            packet,
            packet,
            t,
            (hops - 1) as nat,
        ) == Err::<Seq<u8>, Error>(e)),
    ensures
        spec_decode_label(packet, packet, p, hops) == Err::<Seq<u8>, Error>(
            if hops == 0 {
                Error::CompressionLoop
            } else {
                e
            },
        ),
    decreases packet.len() - p,
{
    let len = packet[p] as int;
    if 0 < len < 64 && p + 1 + len <= packet.len() {
        lemma_decode_pointer_err(packet, p + 1 + len, hops, e);
    }
}

/// A chain of pointers that returns to an already-visited offset — a cycle
/// of any length — exhausts any hop budget: resolving a name at any offset
/// of the cycle fails with `Error::CompressionLoop`, it never hangs.
pub proof fn lemma_pointer_cycle_loops(packet: Seq<u8>, cycle: Seq<int>, i: int, hops: nat)
    requires
        cycle.len() > 0,
        0 <= i < cycle.len(),
        forall|j: int|
            0 <= j < cycle.len() ==> pointer_target_from(packet, #[trigger] cycle[j]) == Some(
                cycle[
                    if j + 1 < cycle.len() {
                        j + 1
                    } else {
                        0
                    }
                ],
            ),
    ensures
        spec_decode_label(packet, packet, cycle[i], hops) == Err::<Seq<u8>, Error>(
            Error::CompressionLoop,
        ),
    decreases hops,
{
    let nxt: int = if i + 1 < cycle.len() {
        i + 1
    } else {
        0
    };
    if hops == 0 {
        lemma_decode_pointer_err(packet, cycle[i], 0, Error::CompressionLoop);
    } else {
        lemma_pointer_cycle_loops(packet, cycle, nxt, (hops - 1) as nat);
        lemma_decode_pointer_err(packet, cycle[i], hops, Error::CompressionLoop);
    }
}

/// A pointer that leads back to itself exhausts any hop budget: resolving
/// it fails with `Error::CompressionLoop`, it never hangs.
pub proof fn lemma_self_pointer_loops(packet: Seq<u8>, pos: int, hops: nat)
    requires
        0 <= pos,
        pos + 2 <= packet.len(),
        packet[pos] >= 192,
        (packet[pos] - 192) * 256 + packet[pos + 1] == pos,
    ensures
        spec_decode_label(packet, packet, pos, hops) == Err::<Seq<u8>, Error>(
            Error::CompressionLoop,
        ),
    decreases hops,
{
    if hops > 0 {
        lemma_self_pointer_loops(packet, pos, (hops - 1) as nat);
    }
}

} // verus!
