//! LEB128 integers, the variable-length encoding every count, index and size
//! in the WebAssembly binary format uses.

use vstd::prelude::*;

verus! {

/// Decoding an unsigned LEB128 integer: the value (as an unbounded natural)
/// and the position just past its last byte, reading at most `max` bytes.
/// `None` when the bytes run out or the continuation bits never stop.
pub open spec fn dec_uleb(s: Seq<u8>, pos: int, max: int) -> Option<(nat, int)>
    decreases max,
{
    if max <= 0 || pos < 0 || pos >= s.len() {
        None
    } else {
        let b = s[pos];
        if b < 0x80 {
            Some((b as nat, pos + 1))
        } else {
            match dec_uleb(s, pos + 1, max - 1) {
                None => None,
                Some((v, end)) => Some(((b - 0x80) as nat + 128 * v, end)),
            }
        }
    }
}

/// The position just past a LEB128 integer, signed or unsigned: only the
/// continuation bits matter for its extent.
pub open spec fn leb_end(s: Seq<u8>, pos: int, max: int) -> Option<int>
    decreases max,
{
    if max <= 0 || pos < 0 || pos >= s.len() {
        None
    } else if s[pos] < 0x80 {
        Some(pos + 1)
    } else {
        leb_end(s, pos + 1, max - 1)
    }
}

/// A `u32` read as LEB128 from at most five bytes; overlong values that do
/// not fit 32 bits are refused.
pub open spec fn dec_u32(s: Seq<u8>, pos: int) -> Option<(u32, int)> {
    match dec_uleb(s, pos, 5) {
        None => None,
        Some((v, end)) => if v < 0x1_0000_0000 {
            Some((v as u32, end))
        } else {
            None
        },
    }
}

/// The largest value a LEB128 integer of at most `max` bytes can carry.
pub open spec fn uleb_bound(max: int) -> nat
    decreases max,
{
    if max <= 0 {
        0
    } else {
        127 + 128 * uleb_bound(max - 1)
    }
}

/// A decoded LEB128 integer moves the position strictly forward, stays inside
/// the bytes, and is bounded by the byte budget; value decoding and skipping
/// agree on the end position.
pub proof fn lemma_dec_uleb_bounds(s: Seq<u8>, pos: int, max: int)
    ensures
        dec_uleb(s, pos, max) matches Some((v, end)) ==> pos < end <= s.len() && v
            <= uleb_bound(max),
        leb_end(s, pos, max) matches Some(end) ==> pos < end <= s.len(),
        (match dec_uleb(s, pos, max) {
            Some((v, end)) => leb_end(s, pos, max) == Some(end),
            None => leb_end(s, pos, max) is None,
        }),
    decreases max,
{
    if max <= 0 || pos < 0 || pos >= s.len() {
    } else if s[pos] < 0x80 {
    } else {
        lemma_dec_uleb_bounds(s, pos + 1, max - 1);
    }
}

/// Read an unsigned LEB128 integer of at most `max` bytes, as `dec_uleb`
/// describes.
pub fn read_uleb(bytes: &[u8], pos: usize, max: usize) -> (r: Option<(u64, usize)>)
    requires
        max <= 5,
    ensures
        (match dec_uleb(bytes@, pos as int, max as int) {
            Some((v, end)) => r matches Some((rv, rend)) && rv as nat == v && rend as int == end,
            None => r is None,
        }),
    decreases max,
{
    proof {
        lemma_dec_uleb_bounds(bytes@, pos as int, max as int);
    }
    if max == 0 || pos >= bytes.len() {
        return None;
    }
    let b = bytes[pos];
    if b < 0x80 {
        Some((b as u64, pos + 1))
    } else {
        match read_uleb(bytes, pos + 1, max - 1) {
            None => None,
            Some((v, end)) => {
                proof {
                    lemma_dec_uleb_bounds(bytes@, pos as int + 1, max as int - 1);
                    reveal_with_fuel(uleb_bound, 6);
                    assert(uleb_bound(max as int - 1) <= 268435455);
                }
                Some(((b - 0x80) as u64 + 128 * v, end))
            },
        }
    }
}

/// Read a `u32` as LEB128, as `dec_u32` describes.
pub fn read_u32(bytes: &[u8], pos: usize) -> (r: Option<(u32, usize)>)
    ensures
        (match dec_u32(bytes@, pos as int) {
            Some((v, end)) => r matches Some((rv, rend)) && rv == v && rend as int == end,
            None => r is None,
        }),
{
    match read_uleb(bytes, pos, 5) {
        None => None,
        Some((v, end)) => if v < 0x1_0000_0000 {
            Some((v as u32, end))
        } else {
            None
        },
    }
}

/// Skip one LEB128 integer of at most `max` bytes, as `leb_end` describes.
pub fn skip_leb(bytes: &[u8], pos: usize, max: usize) -> (r: Option<usize>)
    requires
        max <= 10,
    ensures
        (match leb_end(bytes@, pos as int, max as int) {
            Some(end) => r matches Some(rend) && rend as int == end,
            None => r is None,
        }),
    decreases max,
{
    proof {
        lemma_dec_uleb_bounds(bytes@, pos as int, max as int);
    }
    if max == 0 || pos >= bytes.len() {
        return None;
    }
    if bytes[pos] < 0x80 {
        Some(pos + 1)
    } else {
        skip_leb(bytes, pos + 1, max - 1)
    }
}

/// The unsigned LEB128 encoding of a value.
pub open spec fn enc_uleb(v: nat) -> Seq<u8>
    decreases v,
{
    if v < 128 {
        seq![v as u8]
    } else {
        seq![(128 + v % 128) as u8] + enc_uleb(v / 128)
    }
}

/// Append the LEB128 encoding of `v` to `out`.
pub fn write_u32(out: &mut Vec<u8>, v: u32)
    ensures
        final(out)@ == old(out)@ + enc_uleb(v as nat),
    decreases v,
{
    if v < 128 {
        out.push(v as u8);
        proof {
            assert(out@ =~= old(out)@ + enc_uleb(v as nat));
        }
    } else {
        out.push(((v % 128) + 128) as u8);
        write_u32(out, v / 128);
        proof {
            assert(out@ =~= old(out)@ + enc_uleb(v as nat));
        }
    }
}

/// The measure a signed LEB128 encoding shrinks by: distance from `0` or `-1`.
pub open spec fn sleb_measure(v: int) -> int {
    if v >= 0 {
        v
    } else {
        -1 - v
    }
}

/// The signed LEB128 encoding of an integer.
pub open spec fn enc_sleb(v: int) -> Seq<u8>
    decreases sleb_measure(v),
{
    if -64 <= v < 64 {
        if v >= 0 {
            seq![v as u8]
        } else {
            seq![(v + 128) as u8]
        }
    } else {
        let low = v % 128;
        seq![(low + 128) as u8] + enc_sleb((v - low) / 128)
    }
}

/// Append the signed LEB128 encoding of `v` to `out`.
pub fn write_sleb(out: &mut Vec<u8>, v: i64)
    ensures
        final(out)@ == old(out)@ + enc_sleb(v as int),
    decreases sleb_measure(v as int),
{
    if -64 <= v && v < 64 {
        if v >= 0 {
            out.push(v as u8);
        } else {
            out.push((v + 128) as u8);
        }
        proof {
            assert(out@ =~= old(out)@ + enc_sleb(v as int));
        }
    } else if v >= 64 {
        let low = v % 128;
        out.push((low + 128) as u8);
        write_sleb(out, v / 128);
        proof {
            assert(low as int == (v as int) % 128);
            assert((v as int - low as int) / 128 == (v / 128) as int);
            assert(out@ =~= old(out)@ + enc_sleb(v as int));
        }
    } else {
        // v <= -65: work on the non-negative magnitude w with v == -1 - w,
        // so that no executable arithmetic touches a negative dividend.
        let w = -(v + 1);
        let low = 127 - (w % 128);
        let rest = -1 - (w / 128);
        proof {
            assert(low as int == (v as int) % 128) by (nonlinear_arith)
                requires
                    v <= -65,
                    w == -(v + 1),
                    low == 127 - (w % 128),
            ;
            assert(rest as int == ((v as int) - (v as int) % 128) / 128) by (nonlinear_arith)
                requires
                    v <= -65,
                    w == -(v + 1),
                    low == 127 - (w % 128),
                    rest == -1 - (w / 128),
                    low as int == (v as int) % 128,
            ;
        }
        out.push((low + 128) as u8);
        write_sleb(out, rest);
        proof {
            assert(out@ =~= old(out)@ + enc_sleb(v as int));
        }
    }
}

/// The little-endian bytes of the low `n` bytes of a value.
pub open spec fn le_bytes(v: nat, n: nat) -> Seq<u8>
    decreases n,
{
    if n == 0 {
        Seq::empty()
    } else {
        seq![(v % 256) as u8] + le_bytes(v / 256, (n - 1) as nat)
    }
}

/// Append the four little-endian bytes of `v` to `out`.
pub fn write_le32(out: &mut Vec<u8>, v: u32)
    ensures
        final(out)@ == old(out)@ + le_bytes(v as nat, 4),
{
    out.push((v % 256) as u8);
    out.push((v / 256 % 256) as u8);
    out.push((v / 65536 % 256) as u8);
    out.push((v / 16777216) as u8);
    proof {
        reveal_with_fuel(le_bytes, 5);
        assert(out@ =~= old(out)@ + le_bytes(v as nat, 4));
    }
}

} // verus!
