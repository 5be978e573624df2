//! The rewriter: emits the output module. Memory sizes come from the
//! snapshot's page counts, mutable globals get constant initializers holding
//! their captured values, the export set is cleaned of synthetic and
//! initializer exports and passed through the rename table, the data section
//! is regenerated from the snapshot's non-zero runs, and a start function
//! that coincides with the initializer is dropped. Everything else is
//! emitted byte for byte.

use crate::leb::{dec_u32, enc_sleb, enc_uleb, le_bytes, write_le32, write_sleb, write_u32};
use crate::parse::{
    dec_export_section, dec_global_section, dec_memory_section, decode_exports, decode_globals,
    decode_memories, exports_view, find_export, globals_view, ExportEntry, GlobalEntry, MemEntry,
};
use crate::renames::{distinct_pairs, dst_of, has_dst, has_src, FuncRenames};
use crate::sections::{
    bytes_extend, bytes_range, enc_module, enc_sections, header_bytes, sections_view,
    write_section, RawSection,
};
use crate::snapshot::{runs_from, runs_view, GlobalVal, MemSnapshot, Snapshot};
use crate::ErrorKind;
use vstd::prelude::*;

verus! {

/// The reserved prefix of synthetic export names: `__wizer_`.
pub open spec fn reserved_prefix() -> Seq<u8> {
    seq![0x5fu8, 0x5fu8, 0x77u8, 0x69u8, 0x7au8, 0x65u8, 0x72u8, 0x5fu8]
}

/// Whether a name carries the reserved synthetic prefix.
pub open spec fn is_reserved(name: Seq<u8>) -> bool {
    name.len() >= 8 && name.take(8) == reserved_prefix()
}

/// Whether a name carries the reserved synthetic prefix.
pub fn is_reserved_exec(name: &[u8]) -> (r: bool)
    ensures
        r == is_reserved(name@),
{
    if name.len() < 8 {
        proof {
            assert(!is_reserved(name@));
        }
        return false;
    }
    let r = name[0] == 0x5f && name[1] == 0x5f && name[2] == 0x77 && name[3] == 0x69 && name[4]
        == 0x7a && name[5] == 0x65 && name[6] == 0x72 && name[7] == 0x5f;
    proof {
        if r {
            assert(name@.take(8) =~= reserved_prefix());
        } else {
            assert(name@.take(8) != reserved_prefix());
        }
    }
    r
}

/// The export list of the output module: synthetic exports and the
/// initializer export are removed, every rename source is re-emitted under
/// its destination, and an untouched export whose name is some rename's
/// destination is displaced.
pub open spec fn rw_exports(
    es: Seq<(Seq<u8>, u8, u32)>,
    pairs: Seq<(Seq<u8>, Seq<u8>)>,
    init: Seq<u8>,
) -> Seq<(Seq<u8>, u8, u32)>
    decreases es.len(),
{
    if es.len() == 0 {
        Seq::empty()
    } else {
        let rest = rw_exports(es.drop_last(), pairs, init);
        let e = es.last();
        if is_reserved(e.0) || e.0 == init {
            rest
        } else if has_src(pairs, e.0) {
            rest.push((dst_of(pairs, e.0), e.1, e.2))
        } else if has_dst(pairs, e.0) {
            rest
        } else {
            rest.push(e)
        }
    }
}

/// Apply `rw_exports` to a decoded export list.
pub fn rewrite_exports(es: &Vec<ExportEntry>, renames: &FuncRenames, init: &[u8]) -> (r: Vec<
    ExportEntry,
>)
    requires
        renames.wf(),
    ensures
        exports_view(r@) == rw_exports(exports_view(es@), renames@, init@),
{
    let ghost esv = exports_view(es@);
    let mut out: Vec<ExportEntry> = Vec::new();
    let mut i: usize = 0;
    proof {
        assert(esv.take(0) =~= Seq::<(Seq<u8>, u8, u32)>::empty());
        assert(exports_view(out@) =~= rw_exports(esv.take(0), renames@, init@));
    }
    while i < es.len()
        invariant
            i <= es@.len(),
            renames.wf(),
            esv == exports_view(es@),
            esv.len() == es@.len(),
            exports_view(out@) == rw_exports(esv.take(i as int), renames@, init@),
        decreases es@.len() - i,
    {
        let ghost prev = exports_view(out@);
        proof {
            assert(esv.take(i as int + 1).drop_last() =~= esv.take(i as int));
            assert(esv.take(i as int + 1).last() == esv[i as int]);
            assert(esv[i as int] == (es@[i as int].name@, es@[i as int].kind, es@[i as int].index));
        }
        let e = &es[i];
        let drop_it = {
            if is_reserved_exec(e.name.as_slice()) {
                true
            } else {
                crate::sections::bytes_eq(e.name.as_slice(), init)
            }
        };
        if !drop_it {
            match renames.dst_for(e.name.as_slice()) {
                Some(d) => {
                    let name = bytes_range(d.as_slice(), 0, d.len());
                    proof {
                        assert(name@ =~= d@);
                    }
                    out.push(ExportEntry { name, kind: e.kind, index: e.index });
                    proof {
                        assert(exports_view(out@) =~= prev.push(
                            (dst_of(renames@, esv[i as int].0), esv[i as int].1, esv[i as int].2),
                        ));
                    }
                },
                None => {
                    if !renames.is_rename_dst(e.name.as_slice()) {
                        let name = bytes_range(e.name.as_slice(), 0, e.name.len());
                        proof {
                            assert(name@ =~= es@[i as int].name@);
                        }
                        out.push(ExportEntry { name, kind: e.kind, index: e.index });
                        proof {
                            assert(exports_view(out@) =~= prev.push(esv[i as int]));
                        }
                    }
                },
            }
        }
        i += 1;
    }
    proof {
        assert(esv.take(i as int) =~= esv);
    }
    out
}

/// The encoding of one export: a length-prefixed name, the kind byte, the
/// index.
pub open spec fn enc_export(e: (Seq<u8>, u8, u32)) -> Seq<u8> {
    enc_uleb(e.0.len()) + e.0 + seq![e.1] + enc_uleb(e.2 as nat)
}

/// The encoding of the first `n` exports, concatenated.
pub open spec fn enc_exports(es: Seq<(Seq<u8>, u8, u32)>, n: int) -> Seq<u8>
    decreases n,
{
    if n <= 0 {
        Seq::empty()
    } else {
        enc_exports(es, n - 1) + enc_export(es[n - 1])
    }
}

/// An export section body: the count, then the exports.
pub open spec fn enc_export_body(es: Seq<(Seq<u8>, u8, u32)>) -> Seq<u8> {
    enc_uleb(es.len()) + enc_exports(es, es.len() as int)
}

/// Build an export section body, as `enc_export_body` describes.
pub fn build_export_body(es: &Vec<ExportEntry>) -> (r: Vec<u8>)
    requires
        es@.len() < 0x1_0000_0000,
        forall|t: int| 0 <= t < es@.len() ==> (#[trigger] es@[t]).name@.len() < 0x1_0000_0000,
    ensures
        r@ == enc_export_body(exports_view(es@)),
{
    let ghost esv = exports_view(es@);
    let mut out: Vec<u8> = Vec::new();
    write_u32(&mut out, es.len() as u32);
    let ghost header = out@;
    let mut i: usize = 0;
    proof {
        assert(out@ =~= header + enc_exports(esv, 0));
    }
    while i < es.len()
        invariant
            i <= es@.len(),
            esv == exports_view(es@),
            esv.len() == es@.len(),
            forall|t: int| 0 <= t < es@.len() ==> (#[trigger] es@[t]).name@.len() < 0x1_0000_0000,
            out@ == header + enc_exports(esv, i as int),
        decreases es@.len() - i,
    {
        proof {
            assert(esv[i as int] == (es@[i as int].name@, es@[i as int].kind, es@[i as int].index));
        }
        let e = &es[i];
        write_u32(&mut out, e.name.len() as u32);
        bytes_extend(&mut out, e.name.as_slice());
        out.push(e.kind);
        write_u32(&mut out, e.index);
        proof {
            assert(out@ =~= header + enc_exports(esv, i as int + 1));
        }
        i += 1;
    }
    out
}

/// A memory section body rebuilt from the snapshot: each memory keeps its
/// maximum, and its initial size becomes the captured page count.
pub open spec fn enc_memory(m: MemEntry) -> Seq<u8> {
    if m.has_max {
        seq![1u8] + enc_uleb(m.min as nat) + enc_uleb(m.max as nat)
    } else {
        seq![0u8] + enc_uleb(m.min as nat)
    }
}

/// The encoding of the first `n` memory entries, concatenated.
pub open spec fn enc_memories(ms: Seq<MemEntry>, n: int) -> Seq<u8>
    decreases n,
{
    if n <= 0 {
        Seq::empty()
    } else {
        enc_memories(ms, n - 1) + enc_memory(ms[n - 1])
    }
}

/// The new memory entries: initial sizes replaced by the snapshot's page
/// counts, maxima preserved.
pub open spec fn new_memories(ms: Seq<MemEntry>, pages: Seq<(u32, Seq<u8>)>) -> Seq<MemEntry> {
    ms.map(
        |i: int, m: MemEntry|
            MemEntry { has_max: m.has_max, min: pages[i].0, max: m.max },
    )
}

/// A memory section body: the count, then the limits.
pub open spec fn enc_memory_body(ms: Seq<MemEntry>) -> Seq<u8> {
    enc_uleb(ms.len()) + enc_memories(ms, ms.len() as int)
}

/// Build a memory section body, as `enc_memory_body` describes.
pub fn build_memory_body(ms: &Vec<MemEntry>) -> (r: Vec<u8>)
    requires
        ms@.len() < 0x1_0000_0000,
    ensures
        r@ == enc_memory_body(ms@),
{
    let mut out: Vec<u8> = Vec::new();
    write_u32(&mut out, ms.len() as u32);
    let ghost header = out@;
    let mut i: usize = 0;
    proof {
        assert(out@ =~= header + enc_memories(ms@, 0));
    }
    while i < ms.len()
        invariant
            i <= ms@.len(),
            out@ == header + enc_memories(ms@, i as int),
        decreases ms@.len() - i,
    {
        let m = ms[i];
        if m.has_max {
            out.push(1);
            write_u32(&mut out, m.min);
            write_u32(&mut out, m.max);
        } else {
            out.push(0);
            write_u32(&mut out, m.min);
        }
        proof {
            assert(out@ =~= header + enc_memories(ms@, i as int + 1));
        }
        i += 1;
    }
    out
}

/// The signed reading of a 32-bit pattern.
pub open spec fn signed32(b: u32) -> int {
    if b < 0x8000_0000 {
        b as int
    } else {
        b - 0x1_0000_0000
    }
}

/// The signed reading of a 64-bit pattern.
pub open spec fn signed64(b: u64) -> int {
    if b < 0x8000_0000_0000_0000 {
        b as int
    } else {
        b - 0x1_0000_0000_0000_0000
    }
}

/// The constant initializer expression producing a captured value: one const
/// instruction and `end`. Float patterns go into the immediate bytes
/// directly.
pub open spec fn const_expr_bytes(v: GlobalVal) -> Seq<u8> {
    match v {
        GlobalVal::I32(b) => seq![0x41u8] + enc_sleb(signed32(b)) + seq![0x0bu8],
        GlobalVal::I64(b) => seq![0x42u8] + enc_sleb(signed64(b)) + seq![0x0bu8],
        GlobalVal::F32Bits(b) => seq![0x43u8] + le_bytes(b as nat, 4) + seq![0x0bu8],
        GlobalVal::F64Bits(b) => seq![0x44u8] + le_bytes((b as nat) % 0x1_0000_0000, 4) + le_bytes(
            (b as nat) / 0x1_0000_0000,
            4,
        ) + seq![0x0bu8],
    }
}

/// Append a constant initializer expression, as `const_expr_bytes` describes.
pub fn write_const_expr(out: &mut Vec<u8>, v: &GlobalVal)
    ensures
        final(out)@ == old(out)@ + const_expr_bytes(*v),
{
    match v {
        GlobalVal::I32(b) => {
            out.push(0x41);
            if *b < 0x8000_0000 {
                write_sleb(out, *b as i64);
            } else {
                write_sleb(out, (*b as i64) - 0x1_0000_0000);
            }
            out.push(0x0b);
        },
        GlobalVal::I64(b) => {
            out.push(0x42);
            if *b < 0x8000_0000_0000_0000 {
                write_sleb(out, *b as i64);
            } else {
                let d = u64::MAX - *b;
                write_sleb(out, -(d as i64) - 1);
            }
            out.push(0x0b);
        },
        GlobalVal::F32Bits(b) => {
            out.push(0x43);
            write_le32(out, *b);
            out.push(0x0b);
        },
        GlobalVal::F64Bits(b) => {
            out.push(0x44);
            write_le32(out, (*b % 0x1_0000_0000) as u32);
            write_le32(out, (*b / 0x1_0000_0000) as u32);
            out.push(0x0b);
        },
    }
    proof {
        assert(out@ =~= old(out)@ + const_expr_bytes(*v));
    }
}

/// The encoding of one global in the output: its type and mutability
/// unchanged; a mutable global's initializer replaced by the captured value's
/// constant expression, an immutable one's initializer preserved.
pub open spec fn enc_global(g: (u8, bool, Seq<u8>), v: Option<GlobalVal>) -> Seq<u8> {
    seq![g.0, (if g.1 { 1u8 } else { 0u8 })] + (if g.1 && v is Some {
        const_expr_bytes(v->0)
    } else {
        g.2
    })
}

/// The encoding of the first `n` globals, concatenated.
pub open spec fn enc_globals(gs: Seq<(u8, bool, Seq<u8>)>, vals: Seq<Option<GlobalVal>>, n: int) -> Seq<
    u8,
>
    decreases n,
{
    if n <= 0 {
        Seq::empty()
    } else {
        enc_globals(gs, vals, n - 1) + enc_global(gs[n - 1], vals[n - 1])
    }
}

/// A global section body: the count, then the globals.
pub open spec fn enc_global_body(
    gs: Seq<(u8, bool, Seq<u8>)>,
    vals: Seq<Option<GlobalVal>>,
) -> Seq<u8> {
    enc_uleb(gs.len()) + enc_globals(gs, vals, gs.len() as int)
}

/// Build a global section body, as `enc_global_body` describes. `vals` is
/// aligned with the globals; a mutable global's entry must hold its captured
/// value.
pub fn build_global_body(gs: &Vec<GlobalEntry>, vals: &Vec<Option<GlobalVal>>) -> (r: Vec<u8>)
    requires
        gs@.len() < 0x1_0000_0000,
        vals@.len() == gs@.len(),
    ensures
        r@ == enc_global_body(globals_view(gs@), vals@),
{
    let ghost gsv = globals_view(gs@);
    let mut out: Vec<u8> = Vec::new();
    write_u32(&mut out, gs.len() as u32);
    let ghost header = out@;
    let mut i: usize = 0;
    proof {
        assert(out@ =~= header + enc_globals(gsv, vals@, 0));
    }
    while i < gs.len()
        invariant
            i <= gs@.len(),
            gsv == globals_view(gs@),
            gsv.len() == gs@.len(),
            vals@.len() == gs@.len(),
            out@ == header + enc_globals(gsv, vals@, i as int),
        decreases gs@.len() - i,
    {
        proof {
            assert(gsv[i as int] == (gs@[i as int].valtype, gs@[i as int].mutable, gs@[
                i as int
            ].init@));
        }
        let g = &gs[i];
        out.push(g.valtype);
        out.push(if g.mutable {
            1
        } else {
            0
        });
        let mut replaced = false;
        if g.mutable {
            match &vals[i] {
                Some(v) => {
                    write_const_expr(&mut out, v);
                    replaced = true;
                },
                None => {},
            }
        }
        if !replaced {
            bytes_extend(&mut out, g.init.as_slice());
        }
        proof {
            assert(out@ =~= header + enc_globals(gsv, vals@, i as int + 1));
        }
        i += 1;
    }
    out
}

/// The data segments the snapshot induces: for each memory in index order,
/// one segment per maximal non-zero run of its contents.
pub open spec fn segs_of_mems(ms: Seq<(u32, Seq<u8>)>, i: int) -> Seq<(int, int, Seq<u8>)>
    decreases ms.len() - i,
    when 0 <= i
{
    if i >= ms.len() {
        Seq::empty()
    } else {
        runs_from(ms[i].1, 0).map_values(|p: (int, Seq<u8>)| (i, p.0, p.1)).add(
            segs_of_mems(ms, i + 1),
        )
    }
}

/// The encoding of one active data segment: the memory index (the short form
/// for memory 0), an `i32.const` offset expression, and the bytes.
pub open spec fn enc_seg(s: (int, int, Seq<u8>)) -> Seq<u8> {
    (if s.0 == 0 {
        seq![0u8]
    } else {
        seq![2u8] + enc_uleb(s.0 as nat)
    }) + seq![0x41u8] + enc_sleb(signed32(s.1 as u32)) + seq![0x0bu8] + enc_uleb(s.2.len())
        + s.2
}

/// The encoding of the first `n` data segments, concatenated.
pub open spec fn enc_segs(ss: Seq<(int, int, Seq<u8>)>, n: int) -> Seq<u8>
    decreases n,
{
    if n <= 0 {
        Seq::empty()
    } else {
        enc_segs(ss, n - 1) + enc_seg(ss[n - 1])
    }
}

/// A data section body: the count, then the segments.
pub open spec fn enc_data_body(ss: Seq<(int, int, Seq<u8>)>) -> Seq<u8> {
    enc_uleb(ss.len()) + enc_segs(ss, ss.len() as int)
}

/// Append one memory's runs as tagged segments.
fn push_tagged(out: &mut Vec<(u32, u32, Vec<u8>)>, idx: u32, runs: &Vec<(u32, Vec<u8>)>)
    ensures
        final(out)@.map_values(|p: (u32, u32, Vec<u8>)| (p.0 as int, p.1 as int, p.2@)) == old(
            out,
        )@.map_values(|p: (u32, u32, Vec<u8>)| (p.0 as int, p.1 as int, p.2@)) + runs_view(
            runs@,
        ).map_values(|p: (int, Seq<u8>)| (idx as int, p.0, p.1)),
{
    let ghost base = old(out)@.map_values(|p: (u32, u32, Vec<u8>)| (p.0 as int, p.1 as int, p.2@));
    let ghost tagged = runs_view(runs@).map_values(|p: (int, Seq<u8>)| (idx as int, p.0, p.1));
    let mut k: usize = 0;
    proof {
        assert(out@.map_values(|p: (u32, u32, Vec<u8>)| (p.0 as int, p.1 as int, p.2@)) =~= base
            + tagged.take(0));
    }
    while k < runs.len()
        invariant
            k <= runs@.len(),
            tagged == runs_view(runs@).map_values(|p: (int, Seq<u8>)| (idx as int, p.0, p.1)),
            tagged.len() == runs@.len(),
            out@.map_values(|p: (u32, u32, Vec<u8>)| (p.0 as int, p.1 as int, p.2@)) == base
                + tagged.take(k as int),
        decreases runs@.len() - k,
    {
        let ghost before = out@.map_values(
            |p: (u32, u32, Vec<u8>)| (p.0 as int, p.1 as int, p.2@),
        );
        let off = runs[k].0;
        let bytes = bytes_range(runs[k].1.as_slice(), 0, runs[k].1.len());
        proof {
            assert(bytes@ =~= runs@[k as int].1@);
            assert(runs_view(runs@)[k as int] == (runs@[k as int].0 as int, runs@[k as int].1@));
            assert(tagged[k as int] == (idx as int, runs@[k as int].0 as int, runs@[
                k as int
            ].1@));
        }
        out.push((idx, off, bytes));
        proof {
            assert(out@.map_values(|p: (u32, u32, Vec<u8>)| (p.0 as int, p.1 as int, p.2@))
                =~= before.push(tagged[k as int]));
            assert(tagged.take(k as int + 1) =~= tagged.take(k as int).push(tagged[k as int]));
            assert(before.push(tagged[k as int]) =~= base + tagged.take(k as int + 1));
        }
        k += 1;
    }
    proof {
        assert(tagged.take(k as int) =~= tagged);
    }
}

/// Collect the data segments of a snapshot's memories, as `segs_of_mems`
/// describes.
#[verifier::rlimit(100)]
pub fn collect_segments(mems: &Vec<MemSnapshot>) -> (r: Vec<(u32, u32, Vec<u8>)>)
    requires
        forall|t: int| 0 <= t < mems@.len() ==> (#[trigger] mems@[t]).data@.len() < 0x1_0000_0000,
        mems@.len() < 0x1_0000_0000,
    ensures
        r@.map_values(|p: (u32, u32, Vec<u8>)| (p.0 as int, p.1 as int, p.2@)) == segs_of_mems(
            mems@.map_values(|m: MemSnapshot| m@),
            0,
        ),
{
    let ghost msv = mems@.map_values(|m: MemSnapshot| m@);
    let mut out: Vec<(u32, u32, Vec<u8>)> = Vec::new();
    let mut i: usize = 0;
    proof {
        assert(out@.map_values(|p: (u32, u32, Vec<u8>)| (p.0 as int, p.1 as int, p.2@)).add(
            segs_of_mems(msv, 0),
        ) =~= segs_of_mems(msv, 0));
    }
    while i < mems.len()
        invariant
            i <= mems@.len(),
            mems@.len() < 0x1_0000_0000,
            msv == mems@.map_values(|m: MemSnapshot| m@),
            msv.len() == mems@.len(),
            forall|t: int|
                0 <= t < mems@.len() ==> (#[trigger] mems@[t]).data@.len() < 0x1_0000_0000,
            out@.map_values(|p: (u32, u32, Vec<u8>)| (p.0 as int, p.1 as int, p.2@)).add(
                segs_of_mems(msv, i as int),
            ) == segs_of_mems(msv, 0),
        decreases mems@.len() - i,
    {
        proof {
            assert(msv[i as int] == mems@[i as int]@);
        }
        let runs = crate::snapshot::nonzero_runs(mems[i].data.as_slice());
        let ghost prev = out@.map_values(|p: (u32, u32, Vec<u8>)| (p.0 as int, p.1 as int, p.2@));
        push_tagged(&mut out, i as u32, &runs);
        proof {
            let tagged = runs_view(runs@).map_values(
                |p: (int, Seq<u8>)| (i as int, p.0, p.1),
            );
            assert(segs_of_mems(msv, i as int) == runs_from(msv[i as int].1, 0).map_values(
                |p: (int, Seq<u8>)| (i as int, p.0, p.1),
            ).add(segs_of_mems(msv, i as int + 1)));
            assert(tagged == runs_from(msv[i as int].1, 0).map_values(
                |p: (int, Seq<u8>)| (i as int, p.0, p.1),
            ));
            assert((prev + tagged).add(segs_of_mems(msv, i as int + 1)) =~= prev.add(
                segs_of_mems(msv, i as int),
            ));
        }
        i += 1;
    }
    proof {
        assert(segs_of_mems(msv, i as int) =~= Seq::<(int, int, Seq<u8>)>::empty());
        assert(out@.map_values(|p: (u32, u32, Vec<u8>)| (p.0 as int, p.1 as int, p.2@)).add(
            Seq::<(int, int, Seq<u8>)>::empty(),
        ) =~= out@.map_values(|p: (u32, u32, Vec<u8>)| (p.0 as int, p.1 as int, p.2@)));
    }
    out
}

/// Build a data section body, as `enc_data_body` describes.
#[verifier::rlimit(60)]
pub fn build_data_body(segs: &Vec<(u32, u32, Vec<u8>)>) -> (r: Vec<u8>)
    requires
        segs_ok(segs@.map_values(|p: (u32, u32, Vec<u8>)| (p.0 as int, p.1 as int, p.2@))),
    ensures
        r@ == enc_data_body(
            segs@.map_values(|p: (u32, u32, Vec<u8>)| (p.0 as int, p.1 as int, p.2@)),
        ),
{
    let ghost sv = segs@.map_values(|p: (u32, u32, Vec<u8>)| (p.0 as int, p.1 as int, p.2@));
    let mut out: Vec<u8> = Vec::new();
    write_u32(&mut out, segs.len() as u32);
    let ghost header = out@;
    let mut i: usize = 0;
    proof {
        assert(out@ =~= header + enc_segs(sv, 0));
    }
    while i < segs.len()
        invariant
            i <= segs@.len(),
            sv == segs@.map_values(|p: (u32, u32, Vec<u8>)| (p.0 as int, p.1 as int, p.2@)),
            sv.len() == segs@.len(),
            segs_ok(sv),
            out@ == header + enc_segs(sv, i as int),
        decreases segs@.len() - i,
    {
        proof {
            assert(sv[i as int] == (segs@[i as int].0 as int, segs@[i as int].1 as int, segs@[
                i as int
            ].2@));
        }
        let (midx, off, _) = (segs[i].0, segs[i].1, ());
        if midx == 0 {
            out.push(0);
        } else {
            out.push(2);
            write_u32(&mut out, midx);
        }
        out.push(0x41);
        if off < 0x8000_0000 {
            write_sleb(&mut out, off as i64);
        } else {
            write_sleb(&mut out, (off as i64) - 0x1_0000_0000);
        }
        out.push(0x0b);
        write_u32(&mut out, segs[i].2.len() as u32);
        bytes_extend(&mut out, segs[i].2.as_slice());
        proof {
            assert(out@ =~= header + enc_segs(sv, i as int + 1));
        }
        i += 1;
    }
    out
}

/// The body of the first section with this id, searching from `i`.
pub open spec fn first_section(ss: Seq<(u8, Seq<u8>)>, id: u8, i: int) -> Option<Seq<u8>>
    decreases ss.len() - i,
    when 0 <= i
{
    if i >= ss.len() {
        None
    } else if ss[i].0 == id {
        Some(ss[i].1)
    } else {
        first_section(ss, id, i + 1)
    }
}

/// The function index the initialization export is bound to, read from the
/// module's export section.
pub open spec fn init_func_index(ss: Seq<(u8, Seq<u8>)>, init: Seq<u8>) -> Option<u32> {
    match first_section(ss, 7, 0) {
        None => None,
        Some(b) => match dec_export_section(b) {
            None => None,
            Some(es) => match find_export(es, init, 0) {
                None => None,
                Some(t) => if es[t].1 == 0 {
                    Some(es[t].2)
                } else {
                    None
                },
            },
        },
    }
}

/// Whether the snapshot hands a captured value for every mutable global.
pub open spec fn vals_cover(gs: Seq<(u8, bool, Seq<u8>)>, vals: Seq<Option<GlobalVal>>) -> bool {
    forall|j: int| 0 <= j < gs.len() ==> ((#[trigger] gs[j]).1 ==> vals[j] is Some)
}

/// Whether an export list is small enough to encode: fewer than `2^32`
/// entries, each name shorter than `2^32` bytes.
pub open spec fn names_ok(es: Seq<(Seq<u8>, u8, u32)>) -> bool {
    es.len() < 0x1_0000_0000 && forall|t: int|
        0 <= t < es.len() ==> (#[trigger] es[t]).0.len() < 0x1_0000_0000
}

/// Whether a segment list is small enough to encode.
pub open spec fn segs_ok(ss: Seq<(int, int, Seq<u8>)>) -> bool {
    ss.len() < 0x1_0000_0000 && forall|t: int|
        0 <= t < ss.len() ==> (#[trigger] ss[t]).2.len() < 0x1_0000_0000 && 0 <= ss[t].0
            < 0x1_0000_0000 && 0 <= ss[t].1 < 0x1_0000_0000
}

/// Rewrite one section: `Ok(None)` drops it, `Ok(Some(..))` replaces or
/// keeps it. Memory sizes and global initializers come from the snapshot,
/// the export section is cleaned and renamed, a start section bound to the
/// initializer is dropped, and the data section is rebuilt (or dropped when
/// the snapshot holds only zero bytes).
pub open spec fn rewrite_one(
    sec: (u8, Seq<u8>),
    pages: Seq<(u32, Seq<u8>)>,
    vals: Seq<Option<GlobalVal>>,
    pairs: Seq<(Seq<u8>, Seq<u8>)>,
    init: Seq<u8>,
    initfid: Option<u32>,
    segs: Seq<(int, int, Seq<u8>)>,
) -> Result<Option<(u8, Seq<u8>)>, ErrorKind> {
    let id = sec.0;
    let b = sec.1;
    if id == 5 {
        match dec_memory_section(b) {
            None => Err(ErrorKind::MalformedInput),
            Some(ms) => if ms.len() == pages.len() && ms.len() < 0x1_0000_0000
                && enc_memory_body(new_memories(ms, pages)).len() < 0x1_0000_0000 {
                Ok(Some((5u8, enc_memory_body(new_memories(ms, pages)))))
            } else {
                Err(ErrorKind::MalformedInput)
            },
        }
    } else if id == 6 {
        match dec_global_section(b) {
            None => Err(ErrorKind::MalformedInput),
            Some(gs) => if gs.len() == vals.len() && vals_cover(gs, vals) && gs.len()
                < 0x1_0000_0000 && enc_global_body(gs, vals).len() < 0x1_0000_0000 {
                Ok(Some((6u8, enc_global_body(gs, vals))))
            } else {
                Err(ErrorKind::MalformedInput)
            },
        }
    } else if id == 7 {
        match dec_export_section(b) {
            None => Err(ErrorKind::MalformedInput),
            Some(es) => if names_ok(rw_exports(es, pairs, init)) && enc_export_body(
                rw_exports(es, pairs, init),
            ).len() < 0x1_0000_0000 {
                Ok(Some((7u8, enc_export_body(rw_exports(es, pairs, init)))))
            } else {
                Err(ErrorKind::MalformedInput)
            },
        }
    } else if id == 8 {
        match dec_u32(b, 0) {
            None => Err(ErrorKind::MalformedInput),
            Some((fidx, _)) => if initfid == Some(fidx) {
                Ok(None)
            } else if b.len() < 0x1_0000_0000 {
                Ok(Some(sec))
            } else {
                Err(ErrorKind::MalformedInput)
            },
        }
    } else if id == 11 {
        if segs.len() == 0 {
            Ok(None)
        } else if segs_ok(segs) && enc_data_body(segs).len() < 0x1_0000_0000 {
            Ok(Some((11u8, enc_data_body(segs))))
        } else {
            Err(ErrorKind::MalformedInput)
        }
    } else if id == 12 {
        // The data-count section must agree with the regenerated data
        // section: re-emit it with the new segment count, or drop it with
        // the data section.
        if segs.len() == 0 {
            Ok(None)
        } else if segs.len() < 0x1_0000_0000 && enc_uleb(segs.len()).len() < 0x1_0000_0000 {
            Ok(Some((12u8, enc_uleb(segs.len()))))
        } else {
            Err(ErrorKind::MalformedInput)
        }
    } else if b.len() < 0x1_0000_0000 {
        Ok(Some(sec))
    } else {
        Err(ErrorKind::MalformedInput)
    }
}

/// Rewrite the sections from `i` on, in order, dropping the dropped ones.
pub open spec fn rewrite_sections_from(
    ss: Seq<(u8, Seq<u8>)>,
    i: int,
    pages: Seq<(u32, Seq<u8>)>,
    vals: Seq<Option<GlobalVal>>,
    pairs: Seq<(Seq<u8>, Seq<u8>)>,
    init: Seq<u8>,
    initfid: Option<u32>,
    segs: Seq<(int, int, Seq<u8>)>,
) -> Result<Seq<(u8, Seq<u8>)>, ErrorKind>
    decreases ss.len() - i,
    when 0 <= i
{
    if i >= ss.len() {
        Ok(Seq::empty())
    } else {
        match rewrite_one(ss[i], pages, vals, pairs, init, initfid, segs) {
            Err(e) => Err(e),
            Ok(opt) => match rewrite_sections_from(ss, i + 1, pages, vals, pairs, init, initfid, segs) {
                Err(e) => Err(e),
                Ok(rest) => Ok(
                    (match opt {
                        None => Seq::<(u8, Seq<u8>)>::empty(),
                        Some(s) => seq![s],
                    }).add(rest),
                ),
            },
        }
    }
}

/// Whether the module has a data section.
pub open spec fn has_data_section(ss: Seq<(u8, Seq<u8>)>) -> bool {
    exists|i: int| 0 <= i < ss.len() && (#[trigger] ss[i]).0 == 11
}

/// The rewritten section list of the whole module: each section rewritten in
/// place; a new data section appended when the input had none and the
/// snapshot holds non-zero bytes.
pub open spec fn rewrite_spec(
    ss: Seq<(u8, Seq<u8>)>,
    pages: Seq<(u32, Seq<u8>)>,
    vals: Seq<Option<GlobalVal>>,
    pairs: Seq<(Seq<u8>, Seq<u8>)>,
    init: Seq<u8>,
) -> Result<Seq<(u8, Seq<u8>)>, ErrorKind> {
    let segs = segs_of_mems(pages, 0);
    let initfid = init_func_index(ss, init);
    match rewrite_sections_from(ss, 0, pages, vals, pairs, init, initfid, segs) {
        Err(e) => Err(e),
        Ok(list) => if !has_data_section(ss) && segs.len() > 0 {
            if segs_ok(segs) && enc_data_body(segs).len() < 0x1_0000_0000 {
                Ok(list.push((11u8, enc_data_body(segs))))
            } else {
                Err(ErrorKind::MalformedInput)
            }
        } else {
            Ok(list)
        },
    }
}

/// Whether every mutable global has a captured value, as `vals_cover`
/// describes.
pub fn check_vals_cover(gs: &Vec<GlobalEntry>, vals: &Vec<Option<GlobalVal>>) -> (r: bool)
    requires
        vals@.len() == gs@.len(),
    ensures
        r == vals_cover(globals_view(gs@), vals@),
{
    let ghost gsv = globals_view(gs@);
    let mut j: usize = 0;
    while j < gs.len()
        invariant
            j <= gs@.len(),
            gsv == globals_view(gs@),
            gsv.len() == gs@.len(),
            vals@.len() == gs@.len(),
            forall|t: int| 0 <= t < j ==> ((#[trigger] gsv[t]).1 ==> vals@[t] is Some),
        decreases gs@.len() - j,
    {
        proof {
            assert(gsv[j as int] == (gs@[j as int].valtype, gs@[j as int].mutable, gs@[
                j as int
            ].init@));
        }
        if gs[j].mutable && vals[j].is_none() {
            return false;
        }
        j += 1;
    }
    true
}

/// Whether an export list is small enough to encode, as `names_ok` describes.
pub fn check_names_ok(es: &Vec<ExportEntry>) -> (r: bool)
    ensures
        r == names_ok(exports_view(es@)),
{
    let ghost esv = exports_view(es@);
    if !((es.len() as u64) < 0x1_0000_0000u64) {
        return false;
    }
    let mut i: usize = 0;
    while i < es.len()
        invariant
            i <= es@.len(),
            esv == exports_view(es@),
            esv.len() == es@.len(),
            esv.len() < 0x1_0000_0000,
            forall|t: int| 0 <= t < i ==> (#[trigger] esv[t]).0.len() < 0x1_0000_0000,
        decreases es@.len() - i,
    {
        proof {
            assert(esv[i as int] == (es@[i as int].name@, es@[i as int].kind, es@[i as int].index));
        }
        if !((es[i].name.len() as u64) < 0x1_0000_0000u64) {
            return false;
        }
        i += 1;
    }
    true
}

/// The index of the first export with this name, as `find_export` describes.
pub fn find_export_exec(es: &Vec<ExportEntry>, name: &[u8]) -> (r: Option<usize>)
    ensures
        (match find_export(exports_view(es@), name@, 0) {
            Some(t) => r matches Some(rt) && rt as int == t && rt < es@.len(),
            None => r is None,
        }),
{
    let ghost esv = exports_view(es@);
    let mut k: usize = 0;
    while k < es.len()
        invariant
            k <= es@.len(),
            esv == exports_view(es@),
            esv.len() == es@.len(),
            find_export(esv, name@, 0) == find_export(esv, name@, k as int),
        decreases es@.len() - k,
    {
        proof {
            assert(esv[k as int] == (es@[k as int].name@, es@[k as int].kind, es@[k as int].index));
        }
        if crate::sections::bytes_eq(es[k].name.as_slice(), name) {
            return Some(k);
        }
        k += 1;
    }
    None
}

/// Copy one raw section.
fn copy_section(sec: &RawSection) -> (r: RawSection)
    ensures
        r@ == sec@,
{
    let body = bytes_range(sec.body.as_slice(), 0, sec.body.len());
    proof {
        assert(body@ =~= sec.body@);
    }
    RawSection { id: sec.id, body }
}

/// The memory snapshots' views.
pub open spec fn mems_view(ms: Seq<MemSnapshot>) -> Seq<(u32, Seq<u8>)> {
    ms.map_values(|m: MemSnapshot| m@)
}

/// Rewrite one section, as `rewrite_one` describes: `Ok(None)` drops it,
/// `Ok(Some(..))` replaces or keeps it.
#[verifier::rlimit(100)]
fn rewrite_one_exec(
    sec: &RawSection,
    snap: &Snapshot,
    renames: &FuncRenames,
    init: &[u8],
    fid: Option<u32>,
    segs: &Vec<(u32, u32, Vec<u8>)>,
) -> (r: Result<Option<RawSection>, ErrorKind>)
    requires
        renames.wf(),
        snap.memories@.len() < 0x1_0000_0000,
    ensures
        ({
            let one = rewrite_one(
                sec@,
                mems_view(snap.memories@),
                snap.globals@,
                renames@,
                init@,
                fid,
                segs@.map_values(|p: (u32, u32, Vec<u8>)| (p.0 as int, p.1 as int, p.2@)),
            );
            match r {
                Ok(None) => one == Ok::<Option<(u8, Seq<u8>)>, ErrorKind>(None),
                Ok(Some(ns)) => one == Ok::<Option<(u8, Seq<u8>)>, ErrorKind>(Some(ns@))
                    && ns.body@.len() < 0x1_0000_0000,
                Err(e) => one == Err::<Option<(u8, Seq<u8>)>, ErrorKind>(e),
            }
        }),
{
    let ghost pages = mems_view(snap.memories@);
    let ghost segsv = segs@.map_values(|p: (u32, u32, Vec<u8>)| (p.0 as int, p.1 as int, p.2@));
    let id = sec.id;
    if id == 5 {
        let ms = match decode_memories(sec.body.as_slice()) {
            None => {
                return Err(ErrorKind::MalformedInput);
            },
            Some(x) => x,
        };
        if !(ms.len() == snap.memories.len() && (ms.len() as u64) < 0x1_0000_0000u64) {
            return Err(ErrorKind::MalformedInput);
        }
        let mut new_ms: Vec<MemEntry> = Vec::new();
        let mut k: usize = 0;
        proof {
            assert(new_ms@ =~= new_memories(ms@, pages).take(0));
        }
        while k < ms.len()
            invariant
                k <= ms@.len(),
                ms@.len() == pages.len(),
                pages == mems_view(snap.memories@),
                new_ms@ == new_memories(ms@, pages).take(k as int),
            decreases ms@.len() - k,
        {
            proof {
                assert(pages[k as int] == snap.memories@[k as int]@);
            }
            let m = ms[k];
            new_ms.push(
                MemEntry { has_max: m.has_max, min: snap.memories[k].page_count, max: m.max },
            );
            proof {
                assert(new_ms@ =~= new_memories(ms@, pages).take(k as int + 1));
            }
            k += 1;
        }
        proof {
            assert(new_ms@ =~= new_memories(ms@, pages));
        }
        let body = build_memory_body(&new_ms);
        if !((body.len() as u64) < 0x1_0000_0000u64) {
            return Err(ErrorKind::MalformedInput);
        }
        Ok(Some(RawSection { id: 5, body }))
    } else if id == 6 {
        let gs = match decode_globals(sec.body.as_slice()) {
            None => {
                return Err(ErrorKind::MalformedInput);
            },
            Some(x) => x,
        };
        if !(gs.len() == snap.globals.len() && (gs.len() as u64) < 0x1_0000_0000u64) {
            return Err(ErrorKind::MalformedInput);
        }
        if !check_vals_cover(&gs, &snap.globals) {
            return Err(ErrorKind::MalformedInput);
        }
        let body = build_global_body(&gs, &snap.globals);
        if !((body.len() as u64) < 0x1_0000_0000u64) {
            return Err(ErrorKind::MalformedInput);
        }
        Ok(Some(RawSection { id: 6, body }))
    } else if id == 7 {
        let es = match decode_exports(sec.body.as_slice()) {
            None => {
                return Err(ErrorKind::MalformedInput);
            },
            Some(x) => x,
        };
        let new_es = rewrite_exports(&es, renames, init);
        if !check_names_ok(&new_es) {
            return Err(ErrorKind::MalformedInput);
        }
        proof {
            assert forall|t: int|
                0 <= t < new_es@.len() implies (#[trigger] new_es@[t]).name@.len()
                < 0x1_0000_0000 by {
                assert(exports_view(new_es@)[t] == (new_es@[t].name@, new_es@[t].kind, new_es@[
                    t
                ].index));
            }
        }
        let body = build_export_body(&new_es);
        if !((body.len() as u64) < 0x1_0000_0000u64) {
            return Err(ErrorKind::MalformedInput);
        }
        Ok(Some(RawSection { id: 7, body }))
    } else if id == 8 {
        let fidx = match crate::leb::read_u32(sec.body.as_slice(), 0) {
            None => {
                return Err(ErrorKind::MalformedInput);
            },
            Some((x, _)) => x,
        };
        let drop_start = match fid {
            Some(f) => f == fidx,
            None => false,
        };
        if drop_start {
            Ok(None)
        } else if (sec.body.len() as u64) < 0x1_0000_0000u64 {
            Ok(Some(copy_section(sec)))
        } else {
            Err(ErrorKind::MalformedInput)
        }
    } else if id == 11 {
        if segs.len() == 0 {
            proof {
                assert(segsv.len() == segs@.len());
            }
            Ok(None)
        } else if !check_segs_ok(segs) {
            proof {
                assert(segsv.len() == segs@.len());
            }
            Err(ErrorKind::MalformedInput)
        } else {
            let body = build_data_body(segs);
            if !((body.len() as u64) < 0x1_0000_0000u64) {
                return Err(ErrorKind::MalformedInput);
            }
            Ok(Some(RawSection { id: 11, body }))
        }
    } else if id == 12 {
        proof {
            assert(segsv.len() == segs@.len());
        }
        if segs.len() == 0 {
            Ok(None)
        } else if !((segs.len() as u64) < 0x1_0000_0000u64) {
            Err(ErrorKind::MalformedInput)
        } else {
            let mut body: Vec<u8> = Vec::new();
            write_u32(&mut body, segs.len() as u32);
            proof {
                assert(body@ =~= enc_uleb(segsv.len()));
            }
            if !((body.len() as u64) < 0x1_0000_0000u64) {
                return Err(ErrorKind::MalformedInput);
            }
            Ok(Some(RawSection { id: 12, body }))
        }
    } else {
        if (sec.body.len() as u64) < 0x1_0000_0000u64 {
            Ok(Some(copy_section(sec)))
        } else {
            Err(ErrorKind::MalformedInput)
        }
    }
}

/// Rewrite a parsed module into the output module's bytes, exactly as
/// `rewrite_spec` describes: the header, then the rewritten sections.
#[verifier::rlimit(100)]
pub fn rewrite_module(
    secs: &Vec<RawSection>,
    snap: &Snapshot,
    renames: &FuncRenames,
    init: &[u8],
) -> (r: Result<Vec<u8>, ErrorKind>)
    requires
        renames.wf(),
        snap.memories@.len() < 0x1_0000_0000,
        forall|t: int|
            0 <= t < snap.memories@.len() ==> (#[trigger] snap.memories@[t]).data@.len()
                < 0x1_0000_0000,
    ensures
        (match r {
            Ok(out) => rewrite_spec(
                sections_view(secs@),
                mems_view(snap.memories@),
                snap.globals@,
                renames@,
                init@,
            ) matches Ok(list) && out@ == enc_module(list),
            Err(e) => rewrite_spec(
                sections_view(secs@),
                mems_view(snap.memories@),
                snap.globals@,
                renames@,
                init@,
            ) == Err::<Seq<(u8, Seq<u8>)>, ErrorKind>(e),
        }),
{
    let ghost ss = sections_view(secs@);
    let ghost pages = mems_view(snap.memories@);
    let ghost vals = snap.globals@;
    let ghost pairs = renames@;
    let ghost segsv = segs_of_mems(pages, 0);

    let segs = collect_segments(&snap.memories);
    proof {
        assert(segs@.map_values(|p: (u32, u32, Vec<u8>)| (p.0 as int, p.1 as int, p.2@)) == segsv);
        assert(segsv.len() == segs@.len());
    }

    // The function index the initializer export is bound to, if the export
    // section names it.
    let mut fid: Option<u32> = None;
    let mut sec7: Option<usize> = None;
    let mut j: usize = 0;
    while j < secs.len() && sec7.is_none()
        invariant
            j <= secs@.len(),
            ss == sections_view(secs@),
            ss.len() == secs@.len(),
            (match sec7 {
                Some(t) => t < secs@.len() && ss[t as int].0 == 7 && first_section(ss, 7, 0)
                    == Some(ss[t as int].1),
                None => first_section(ss, 7, 0) == first_section(ss, 7, j as int),
            }),
        decreases secs@.len() - j + (if sec7.is_none() {
            1int
        } else {
            0int
        }),
    {
        proof {
            assert(ss[j as int] == (secs@[j as int].id, secs@[j as int].body@));
        }
        if secs[j].id == 7 {
            sec7 = Some(j);
        } else {
            j += 1;
        }
    }
    match sec7 {
        None => {
            proof {
                assert(first_section(ss, 7, 0) is None);
            }
        },
        Some(t) => {
            match decode_exports(secs[t].body.as_slice()) {
                None => {},
                Some(es0) => {
                    match find_export_exec(&es0, init) {
                        None => {},
                        Some(k) => {
                            proof {
                                assert(exports_view(es0@)[k as int] == (es0@[k as int].name@, es0@[
                                    k as int
                                ].kind, es0@[k as int].index));
                            }
                            if es0[k].kind == 0 {
                                fid = Some(es0[k].index);
                            }
                        },
                    }
                },
            }
        },
    }
    let ghost initfid = init_func_index(ss, init@);
    proof {
        assert(fid == initfid);
    }

    // Rewrite each section in order.
    let mut out_secs: Vec<RawSection> = Vec::new();
    let mut saw_data = false;
    let mut i: usize = 0;
    proof {
        assert(sections_view(out_secs@) =~= Seq::<(u8, Seq<u8>)>::empty());
        if rewrite_sections_from(ss, 0, pages, vals, pairs, init@, initfid, segsv) is Ok {
            let rest = rewrite_sections_from(ss, 0, pages, vals, pairs, init@, initfid, segsv)
                ->Ok_0;
            assert(sections_view(out_secs@).add(rest) =~= rest);
        }
    }
    while i < secs.len()
        invariant
            i <= secs@.len(),
            ss == sections_view(secs@),
            ss.len() == secs@.len(),
            pages == mems_view(snap.memories@),
            vals == snap.globals@,
            pairs == renames@,
            renames.wf(),
            snap.memories@.len() < 0x1_0000_0000,
            initfid == init_func_index(ss, init@),
            fid == initfid,
            segsv == segs_of_mems(pages, 0),
            segsv == segs@.map_values(|p: (u32, u32, Vec<u8>)| (p.0 as int, p.1 as int, p.2@)),
            saw_data == exists|t: int| 0 <= t < i && (#[trigger] ss[t]).0 == 11,
            forall|t: int|
                0 <= t < out_secs@.len() ==> (#[trigger] out_secs@[t]).body@.len()
                    < 0x1_0000_0000,
            (match rewrite_sections_from(ss, i as int, pages, vals, pairs, init@, initfid, segsv) {
                Ok(rest) => rewrite_sections_from(ss, 0, pages, vals, pairs, init@, initfid, segsv)
                    == Ok::<_, ErrorKind>(sections_view(out_secs@).add(rest)),
                Err(e) => rewrite_sections_from(ss, 0, pages, vals, pairs, init@, initfid, segsv)
                    == Err::<Seq<(u8, Seq<u8>)>, ErrorKind>(e),
            }),
        decreases secs@.len() - i,
    {
        proof {
            assert(ss[i as int] == (secs@[i as int].id, secs@[i as int].body@));
        }
        let ghost prev = sections_view(out_secs@);
        let sec = &secs[i];
        if sec.id == 11 {
            saw_data = true;
        }
        let one = match rewrite_one_exec(sec, snap, renames, init, fid, &segs) {
            Err(e) => {
                proof {
                    assert(rewrite_sections_from(
                        ss,
                        i as int,
                        pages,
                        vals,
                        pairs,
                        init@,
                        initfid,
                        segsv,
                    ) == Err::<Seq<(u8, Seq<u8>)>, ErrorKind>(e));
                }
                return Err(e);
            },
            Ok(x) => x,
        };
        match one {
            None => {},
            Some(ns) => {
                out_secs.push(ns);
            },
        }
        proof {
            let rest_i1 = rewrite_sections_from(
                ss,
                i as int + 1,
                pages,
                vals,
                pairs,
                init@,
                initfid,
                segsv,
            );
            let one_s = rewrite_one(ss[i as int], pages, vals, pairs, init@, initfid, segsv);
            if rest_i1 is Ok {
                match one_s {
                    Ok(opt) => {
                        match opt {
                            None => {
                                assert(sections_view(out_secs@) =~= prev);
                                assert(prev.add(
                                    Seq::<(u8, Seq<u8>)>::empty().add(rest_i1->Ok_0),
                                ) =~= prev.add(rest_i1->Ok_0));
                            },
                            Some(ns) => {
                                assert(sections_view(out_secs@) =~= prev.push(ns));
                                assert(prev.add(seq![ns].add(rest_i1->Ok_0)) =~= prev.push(
                                    ns,
                                ).add(rest_i1->Ok_0));
                            },
                        }
                    },
                    Err(_) => {},
                }
            }
        }
        i += 1;
    }

    // Append a fresh data section when the input had none and the snapshot
    // holds non-zero bytes.
    proof {
        assert(rewrite_sections_from(ss, i as int, pages, vals, pairs, init@, initfid, segsv)
            == Ok::<Seq<(u8, Seq<u8>)>, ErrorKind>(Seq::empty()));
        assert(sections_view(out_secs@).add(Seq::empty()) =~= sections_view(out_secs@));
        assert(saw_data == has_data_section(ss));
    }
    if !saw_data && segs.len() > 0 {
        proof {
            assert(segsv.len() == segs@.len());
        }
        if !check_segs_ok(&segs) {
            return Err(ErrorKind::MalformedInput);
        }
        let body = build_data_body(&segs);
        if !((body.len() as u64) < 0x1_0000_0000u64) {
            return Err(ErrorKind::MalformedInput);
        }
        let ghost prev = sections_view(out_secs@);
        out_secs.push(RawSection { id: 11, body });
        proof {
            assert(sections_view(out_secs@) =~= prev.push((11u8, enc_data_body(segsv))));
        }
    } else {
        proof {
            assert(segsv.len() == segs@.len());
        }
    }

    // Emit: the header, then the framed sections.
    let ghost list = sections_view(out_secs@);
    let mut out: Vec<u8> = Vec::new();
    out.push(0);
    out.push(0x61);
    out.push(0x73);
    out.push(0x6d);
    out.push(1);
    out.push(0);
    out.push(0);
    out.push(0);
    proof {
        assert(list.take(0) =~= Seq::<(u8, Seq<u8>)>::empty());
        assert(out@ =~= header_bytes() + enc_sections(list.take(0)));
    }
    let mut k: usize = 0;
    while k < out_secs.len()
        invariant
            k <= out_secs@.len(),
            list == sections_view(out_secs@),
            list.len() == out_secs@.len(),
            forall|t: int|
                0 <= t < out_secs@.len() ==> (#[trigger] out_secs@[t]).body@.len()
                    < 0x1_0000_0000,
            out@ == header_bytes() + enc_sections(list.take(k as int)),
        decreases out_secs@.len() - k,
    {
        proof {
            assert(list[k as int] == (out_secs@[k as int].id, out_secs@[k as int].body@));
            assert(list.take(k as int + 1).drop_last() =~= list.take(k as int));
            assert(list.take(k as int + 1).last() == list[k as int]);
        }
        write_section(&mut out, out_secs[k].id, out_secs[k].body.as_slice());
        proof {
            assert(out@ =~= header_bytes() + enc_sections(list.take(k as int + 1)));
        }
        k += 1;
    }
    proof {
        assert(list.take(k as int) =~= list);
    }
    Ok(out)
}

/// Whether a segment list is small enough to encode, as `segs_ok` describes.
pub fn check_segs_ok(segs: &Vec<(u32, u32, Vec<u8>)>) -> (r: bool)
    ensures
        r == segs_ok(segs@.map_values(|p: (u32, u32, Vec<u8>)| (p.0 as int, p.1 as int, p.2@))),
{
    let ghost sv = segs@.map_values(|p: (u32, u32, Vec<u8>)| (p.0 as int, p.1 as int, p.2@));
    if !((segs.len() as u64) < 0x1_0000_0000u64) {
        return false;
    }
    let mut i: usize = 0;
    while i < segs.len()
        invariant
            i <= segs@.len(),
            sv == segs@.map_values(|p: (u32, u32, Vec<u8>)| (p.0 as int, p.1 as int, p.2@)),
            sv.len() == segs@.len(),
            sv.len() < 0x1_0000_0000,
            forall|t: int|
                0 <= t < i ==> (#[trigger] sv[t]).2.len() < 0x1_0000_0000 && 0 <= sv[t].0
                    < 0x1_0000_0000 && 0 <= sv[t].1 < 0x1_0000_0000,
        decreases segs@.len() - i,
    {
        proof {
            assert(sv[i as int] == (segs@[i as int].0 as int, segs@[i as int].1 as int, segs@[
                i as int
            ].2@));
        }
        if !((segs[i].2.len() as u64) < 0x1_0000_0000u64) {
            return false;
        }
        i += 1;
    }
    true
}

/// The rename law: an export whose name is a rename's source — and which the
/// cleaning pass keeps — is re-emitted in the output bound to the same item
/// under the destination name.
pub proof fn lemma_rename_law_present(
    es: Seq<(Seq<u8>, u8, u32)>,
    pairs: Seq<(Seq<u8>, Seq<u8>)>,
    init: Seq<u8>,
    t: int,
)
    requires
        distinct_pairs(pairs),
        0 <= t < es.len(),
        has_src(pairs, es[t].0),
        !is_reserved(es[t].0),
        es[t].0 != init,
    ensures
        exists|u: int|
            0 <= u < rw_exports(es, pairs, init).len() && rw_exports(es, pairs, init)[u] == (
            dst_of(pairs, es[t].0),
            es[t].1,
            es[t].2,
            ),
    decreases es.len(),
{
    let out = rw_exports(es, pairs, init);
    let rest = rw_exports(es.drop_last(), pairs, init);
    if t == es.len() - 1 {
        assert(out[out.len() - 1] == (dst_of(pairs, es[t].0), es[t].1, es[t].2));
    } else {
        assert(es.drop_last()[t] == es[t]);
        lemma_rename_law_present(es.drop_last(), pairs, init, t);
        let u = choose|u: int|
            0 <= u < rest.len() && rest[u] == (dst_of(pairs, es[t].0), es[t].1, es[t].2);
        assert(out[u] == rest[u]);
    }
}

/// The rename law, absence half: a rename's source name does not appear as an
/// output export name, unless it is also some rename's destination.
pub proof fn lemma_rename_law_absent(
    es: Seq<(Seq<u8>, u8, u32)>,
    pairs: Seq<(Seq<u8>, Seq<u8>)>,
    init: Seq<u8>,
    src: Seq<u8>,
)
    requires
        has_src(pairs, src),
        !has_dst(pairs, src),
    ensures
        forall|u: int|
            0 <= u < rw_exports(es, pairs, init).len() ==> (#[trigger] rw_exports(
                es,
                pairs,
                init,
            )[u]).0 != src,
    decreases es.len(),
{
    let out = rw_exports(es, pairs, init);
    if es.len() == 0 {
    } else {
        lemma_rename_law_absent(es.drop_last(), pairs, init, src);
        let rest = rw_exports(es.drop_last(), pairs, init);
        let e = es.last();
        assert forall|u: int| 0 <= u < out.len() implies (#[trigger] out[u]).0 != src by {
            if u < rest.len() {
                assert(out[u] == rest[u]);
            } else {
                if !(is_reserved(e.0) || e.0 == init) {
                    if has_src(pairs, e.0) {
                        assert(has_dst(pairs, dst_of(pairs, e.0)));
                    }
                }
            }
        }
    }
}

/// After the rewrite, no export carries the initializer's name, as long as no
/// rename re-uses it as a destination. A second run on the output therefore
/// cannot find its initializer and fails with `BadInitFunc`.
pub proof fn lemma_init_export_removed(
    es: Seq<(Seq<u8>, u8, u32)>,
    pairs: Seq<(Seq<u8>, Seq<u8>)>,
    init: Seq<u8>,
)
    requires
        !has_dst(pairs, init),
    ensures
        forall|u: int|
            0 <= u < rw_exports(es, pairs, init).len() ==> (#[trigger] rw_exports(
                es,
                pairs,
                init,
            )[u]).0 != init,
    decreases es.len(),
{
    let out = rw_exports(es, pairs, init);
    if es.len() == 0 {
    } else {
        lemma_init_export_removed(es.drop_last(), pairs, init);
        let rest = rw_exports(es.drop_last(), pairs, init);
        let e = es.last();
        assert forall|u: int| 0 <= u < out.len() implies (#[trigger] out[u]).0 != init by {
            if u < rest.len() {
                assert(out[u] == rest[u]);
            } else {
                if !(is_reserved(e.0) || e.0 == init) {
                    if has_src(pairs, e.0) {
                        assert(has_dst(pairs, dst_of(pairs, e.0)));
                    }
                }
            }
        }
    }
}

} // verus!
