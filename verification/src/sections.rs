//! Raw bytes and the section framing of the WebAssembly binary format: a
//! module is the eight-byte header followed by sections, each an id byte, a
//! LEB128 payload size, and the payload.

use crate::leb;
use vstd::prelude::*;

verus! {

/// Compare two byte strings.
pub fn bytes_eq(a: &[u8], b: &[u8]) -> (r: bool)
    ensures
        r <==> a@ == b@,
{
    if a.len() != b.len() {
        proof {
            assert(a@.len() != b@.len());
        }
        return false;
    }
    let mut i: usize = 0;
    while i < a.len()
        invariant
            i <= a.len(),
            a.len() == b.len(),
            forall|k: int| 0 <= k < i ==> a@[k] == b@[k],
        decreases a.len() - i,
    {
        if a[i] != b[i] {
            return false;
        }
        i += 1;
    }
    proof {
        assert(a@ =~= b@);
    }
    true
}

/// Copy the bytes of `v` from `from` (inclusive) to `to` (exclusive).
pub fn bytes_range(v: &[u8], from: usize, to: usize) -> (r: Vec<u8>)
    requires
        from <= to <= v@.len(),
    ensures
        r@ == v@.subrange(from as int, to as int),
{
    let mut out: Vec<u8> = Vec::new();
    let mut i: usize = from;
    while i < to
        invariant
            from <= i <= to <= v@.len(),
            out@ == v@.subrange(from as int, i as int),
        decreases to - i,
    {
        out.push(v[i]);
        proof {
            assert(out@ =~= v@.subrange(from as int, i as int + 1));
        }
        i += 1;
    }
    out
}

/// Append all of `src` to `out`.
pub fn bytes_extend(out: &mut Vec<u8>, src: &[u8])
    ensures
        final(out)@ == old(out)@ + src@,
{
    let mut i: usize = 0;
    while i < src.len()
        invariant
            i <= src@.len(),
            out@ == old(out)@ + src@.take(i as int),
        decreases src@.len() - i,
    {
        out.push(src[i]);
        proof {
            assert(out@ =~= old(out)@ + src@.take(i as int + 1));
        }
        i += 1;
    }
    proof {
        assert(out@ =~= old(out)@ + src@);
    }
}

/// One top-level section: its id byte and its payload, without the framing.
pub struct RawSection {
    /// The section id: 0 for a custom section, 1 types, 2 imports, 3
    /// functions, 4 tables, 5 memories, 6 globals, 7 exports, 8 start, 9
    /// elements, 10 code, 11 data.
    pub id: u8,
    /// The payload bytes, after the id and the size.
    pub body: Vec<u8>,
}

impl View for RawSection {
    type V = (u8, Seq<u8>);

    open spec fn view(&self) -> (u8, Seq<u8>) {
        (self.id, self.body@)
    }
}

/// The view of a section list.
pub open spec fn sections_view(v: Seq<RawSection>) -> Seq<(u8, Seq<u8>)> {
    v.map_values(|s: RawSection| s@)
}

/// The eight bytes every module starts with: magic `\0asm`, version 1.
pub open spec fn header_bytes() -> Seq<u8> {
    seq![0u8, 0x61u8, 0x73u8, 0x6du8, 1u8, 0u8, 0u8, 0u8]
}

/// The framed encoding of one section.
pub open spec fn enc_section(id: u8, body: Seq<u8>) -> Seq<u8> {
    seq![id] + leb::enc_uleb(body.len()) + body
}

/// The concatenated encoding of a section list.
pub open spec fn enc_sections(ss: Seq<(u8, Seq<u8>)>) -> Seq<u8>
    decreases ss.len(),
{
    if ss.len() == 0 {
        Seq::empty()
    } else {
        enc_sections(ss.drop_last()) + enc_section(ss.last().0, ss.last().1)
    }
}

/// The bytes of a whole module: header, then sections.
pub open spec fn enc_module(ss: Seq<(u8, Seq<u8>)>) -> Seq<u8> {
    header_bytes() + enc_sections(ss)
}

/// Splitting bytes into sections from `pos` on: each section is an id byte,
/// a size, and that many payload bytes, ending exactly at the end of input.
pub open spec fn dec_sections(s: Seq<u8>, pos: int) -> Option<Seq<(u8, Seq<u8>)>>
    decreases s.len() - pos,
    when 0 <= pos
    via dec_sections_decreases
{
    if pos == s.len() {
        Some(Seq::empty())
    } else if pos > s.len() {
        None
    } else {
        let id = s[pos];
        match leb::dec_u32(s, pos + 1) {
            None => None,
            Some((size, p2)) => if p2 + size <= s.len() {
                match dec_sections(s, p2 + size) {
                    None => None,
                    Some(rest) => Some(
                        seq![(id, s.subrange(p2, p2 + size))].add(rest),
                    ),
                }
            } else {
                None
            },
        }
    }
}

#[via_fn]
proof fn dec_sections_decreases(s: Seq<u8>, pos: int) {
    if 0 <= pos < s.len() {
        leb::lemma_dec_uleb_bounds(s, pos + 1, 5);
    }
}

/// Split a module's bytes into its header and section list, as
/// `dec_sections` describes; `None` when the header is wrong or a section
/// overruns the input.
pub fn split_sections(bytes: &[u8]) -> (r: Option<Vec<RawSection>>)
    ensures
        (match r {
            Some(secs) => bytes@.len() >= 8 && bytes@.take(8) == header_bytes() && dec_sections(
                bytes@,
                8,
            ) == Some(sections_view(secs@)),
            None => bytes@.len() < 8 || bytes@.take(8) != header_bytes() || dec_sections(bytes@, 8)
                is None,
        }),
{
    if bytes.len() < 8 {
        return None;
    }
    if !(bytes[0] == 0 && bytes[1] == 0x61 && bytes[2] == 0x73 && bytes[3] == 0x6d && bytes[4] == 1
        && bytes[5] == 0 && bytes[6] == 0 && bytes[7] == 0) {
        proof {
            assert(bytes@.take(8) != header_bytes());
        }
        return None;
    }
    proof {
        assert(bytes@.take(8) =~= header_bytes());
    }
    let mut out: Vec<RawSection> = Vec::new();
    let mut pos: usize = 8;
    proof {
        if dec_sections(bytes@, 8) is Some {
            assert(sections_view(out@).add(dec_sections(bytes@, 8).unwrap()) =~= dec_sections(
                bytes@,
                8,
            ).unwrap());
        }
    }
    loop
        invariant
            8 <= pos <= bytes@.len(),
            (match dec_sections(bytes@, pos as int) {
                Some(rest) => dec_sections(bytes@, 8) == Some(sections_view(out@).add(rest)),
                None => dec_sections(bytes@, 8) is None,
            }),
            bytes@.len() >= 8 && bytes@.take(8) == header_bytes(),
        decreases bytes@.len() - pos,
    {
        if pos == bytes.len() {
            proof {
                assert(sections_view(out@).add(Seq::empty()) =~= sections_view(out@));
            }
            return Some(out);
        }
        let id = bytes[pos];
        let (size, p2) = match leb::read_u32(bytes, pos + 1) {
            Some(x) => x,
            None => {
                return None;
            },
        };
        proof {
            leb::lemma_dec_uleb_bounds(bytes@, pos as int + 1, 5);
        }
        if size as usize > bytes.len() - p2 {
            return None;
        }
        let end = p2 + size as usize;
        let body = bytes_range(bytes, p2, end);
        let ghost prev = out@;
        out.push(RawSection { id, body });
        proof {
            let sec = (id, bytes@.subrange(p2 as int, end as int));
            if dec_sections(bytes@, end as int) is Some {
                let rest1 = dec_sections(bytes@, end as int).unwrap();
                assert(dec_sections(bytes@, pos as int) == Some(seq![sec].add(rest1)));
                assert(sections_view(out@) =~= sections_view(prev).push(sec));
                assert(sections_view(prev).add(seq![sec].add(rest1)) =~= sections_view(out@).add(
                    rest1,
                ));
            } else {
                assert(dec_sections(bytes@, pos as int) is None);
            }
        }
        pos = end;
    }
}

/// Append the framed encoding of one section to `out`.
pub fn write_section(out: &mut Vec<u8>, id: u8, body: &[u8])
    requires
        body@.len() < 0x1_0000_0000,
    ensures
        final(out)@ == old(out)@ + enc_section(id, body@),
{
    out.push(id);
    leb::write_u32(out, body.len() as u32);
    bytes_extend(out, body);
    proof {
        assert(out@ =~= old(out)@ + enc_section(id, body@));
    }
}

} // verus!
