//! The instrumenter: adds synthetic exports under the reserved `__wizer_`
//! prefix so that the engine can read back every defined memory and every
//! defined mutable global after initialization. The engine exposes only
//! exported items, so exporting them is the least invasive way to read the
//! final state. Only the export section changes; every index space and every
//! other section is left byte for byte.

use crate::parse::{
    dec_export_section, dec_global_section, dec_memory_section, decode_exports, decode_globals,
    decode_memories, exports_view, globals_view, ExportEntry, GlobalEntry,
};
use crate::rewrite::first_section;
use crate::rewrite::{build_export_body, check_names_ok, enc_export_body, names_ok, reserved_prefix};
use crate::sections::{bytes_range, enc_module, enc_sections, header_bytes, sections_view,
    write_section, RawSection};
use crate::ErrorKind;
use vstd::prelude::*;

verus! {

/// The decimal digits of a number, most significant first.
pub open spec fn dec_digits(n: nat) -> Seq<u8>
    decreases n,
{
    if n < 10 {
        seq![(0x30 + n) as u8]
    } else {
        dec_digits(n / 10).push((0x30 + n % 10) as u8)
    }
}

/// Append the decimal digits of `n`, as `dec_digits` describes.
pub fn write_decimal(out: &mut Vec<u8>, n: u32)
    ensures
        final(out)@ == old(out)@ + dec_digits(n as nat),
    decreases n,
{
    if n < 10 {
        out.push(0x30 + n as u8);
        proof {
            assert(out@ =~= old(out)@ + dec_digits(n as nat));
        }
    } else {
        write_decimal(out, n / 10);
        out.push(0x30 + (n % 10) as u8);
        proof {
            assert(out@ =~= old(out)@ + dec_digits(n as nat));
        }
    }
}

/// The synthetic export name for memory `i`: `__wizer_memory_i`.
pub open spec fn mem_export_name(i: nat) -> Seq<u8> {
    reserved_prefix() + seq![0x6du8, 0x65u8, 0x6du8, 0x6fu8, 0x72u8, 0x79u8, 0x5fu8] + dec_digits(i)
}

/// The synthetic export name for global `j`: `__wizer_global_j`.
pub open spec fn glob_export_name(j: nat) -> Seq<u8> {
    reserved_prefix() + seq![0x67u8, 0x6cu8, 0x6fu8, 0x62u8, 0x61u8, 0x6cu8, 0x5fu8] + dec_digits(
        j,
    )
}

/// Build the synthetic export name for memory `i`.
pub fn make_mem_name(i: u32) -> (r: Vec<u8>)
    ensures
        r@ == mem_export_name(i as nat),
{
    let mut out: Vec<u8> = Vec::new();
    out.push(0x5f);
    out.push(0x5f);
    out.push(0x77);
    out.push(0x69);
    out.push(0x7a);
    out.push(0x65);
    out.push(0x72);
    out.push(0x5f);
    out.push(0x6d);
    out.push(0x65);
    out.push(0x6d);
    out.push(0x6f);
    out.push(0x72);
    out.push(0x79);
    out.push(0x5f);
    let ghost pre = out@;
    proof {
        assert(pre =~= reserved_prefix() + seq![
            0x6du8,
            0x65u8,
            0x6du8,
            0x6fu8,
            0x72u8,
            0x79u8,
            0x5fu8,
        ]);
    }
    write_decimal(&mut out, i);
    out
}

/// Build the synthetic export name for global `j`.
pub fn make_glob_name(j: u32) -> (r: Vec<u8>)
    ensures
        r@ == glob_export_name(j as nat),
{
    let mut out: Vec<u8> = Vec::new();
    out.push(0x5f);
    out.push(0x5f);
    out.push(0x77);
    out.push(0x69);
    out.push(0x7a);
    out.push(0x65);
    out.push(0x72);
    out.push(0x5f);
    out.push(0x67);
    out.push(0x6c);
    out.push(0x6f);
    out.push(0x62);
    out.push(0x61);
    out.push(0x6c);
    out.push(0x5f);
    let ghost pre = out@;
    proof {
        assert(pre =~= reserved_prefix() + seq![
            0x67u8,
            0x6cu8,
            0x6fu8,
            0x62u8,
            0x61u8,
            0x6cu8,
            0x5fu8,
        ]);
    }
    write_decimal(&mut out, j);
    out
}

/// Whether some export already exposes memory `i`.
pub open spec fn has_mem_export(es: Seq<(Seq<u8>, u8, u32)>, i: u32) -> bool {
    exists|t: int| 0 <= t < es.len() && (#[trigger] es[t]).1 == 2 && es[t].2 == i
}

/// The synthetic memory exports for the first `n` memories: one per memory
/// not already exported.
pub open spec fn mem_synths(es: Seq<(Seq<u8>, u8, u32)>, n: nat) -> Seq<(Seq<u8>, u8, u32)>
    decreases n,
{
    if n == 0 {
        Seq::empty()
    } else {
        let pre = mem_synths(es, (n - 1) as nat);
        if has_mem_export(es, (n - 1) as u32) {
            pre
        } else {
            pre.push((mem_export_name((n - 1) as nat), 2u8, (n - 1) as u32))
        }
    }
}

/// The synthetic global exports for the first `n` globals: one per mutable
/// global.
pub open spec fn glob_synths(gs: Seq<(u8, bool, Seq<u8>)>, n: nat) -> Seq<(Seq<u8>, u8, u32)>
    decreases n,
{
    if n == 0 {
        Seq::empty()
    } else {
        let pre = glob_synths(gs, (n - 1) as nat);
        if gs[n - 1].1 {
            pre.push((glob_export_name((n - 1) as nat), 3u8, (n - 1) as u32))
        } else {
            pre
        }
    }
}

/// The instrumented export list: the original exports, then the synthetic
/// memory and global exports.
pub open spec fn instrumented_exports(
    es: Seq<(Seq<u8>, u8, u32)>,
    n_mems: nat,
    gs: Seq<(u8, bool, Seq<u8>)>,
) -> Seq<(Seq<u8>, u8, u32)> {
    es + mem_synths(es, n_mems) + glob_synths(gs, gs.len())
}

/// Build the instrumented export list, as `instrumented_exports` describes.
pub fn instrument_exports(
    es: &Vec<ExportEntry>,
    n_mems: u32,
    gs: &Vec<GlobalEntry>,
) -> (r: Vec<ExportEntry>)
    requires
        gs@.len() < 0x1_0000_0000,
    ensures
        exports_view(r@) == instrumented_exports(
            exports_view(es@),
            n_mems as nat,
            globals_view(gs@),
        ),
{
    let ghost esv = exports_view(es@);
    let ghost gsv = globals_view(gs@);
    let mut out: Vec<ExportEntry> = Vec::new();
    let mut i: usize = 0;
    proof {
        assert(exports_view(out@) =~= esv.take(0));
    }
    while i < es.len()
        invariant
            i <= es@.len(),
            esv == exports_view(es@),
            esv.len() == es@.len(),
            exports_view(out@) == esv.take(i as int),
        decreases es@.len() - i,
    {
        let ghost prev = exports_view(out@);
        proof {
            assert(esv[i as int] == (es@[i as int].name@, es@[i as int].kind, es@[i as int].index));
        }
        let name = bytes_range(es[i].name.as_slice(), 0, es[i].name.len());
        proof {
            assert(name@ =~= es@[i as int].name@);
        }
        out.push(ExportEntry { name, kind: es[i].kind, index: es[i].index });
        proof {
            assert(exports_view(out@) =~= prev.push(esv[i as int]));
            assert(esv.take(i as int + 1) =~= esv.take(i as int).push(esv[i as int]));
        }
        i += 1;
    }
    proof {
        assert(esv.take(i as int) =~= esv);
    }
    // Synthetic exports for memories not already exported.
    let mut m: u32 = 0;
    proof {
        assert(exports_view(out@) =~= esv + mem_synths(esv, 0));
    }
    while m < n_mems
        invariant
            m <= n_mems,
            esv == exports_view(es@),
            esv.len() == es@.len(),
            exports_view(out@) == esv + mem_synths(esv, m as nat),
        decreases n_mems - m,
    {
        let ghost prev = exports_view(out@);
        // Is memory m already exported?
        let mut found = false;
        let mut k: usize = 0;
        while k < es.len() && !found
            invariant
                k <= es@.len(),
                esv == exports_view(es@),
                esv.len() == es@.len(),
                found ==> has_mem_export(esv, m),
                !found ==> forall|t: int| 0 <= t < k ==> !((#[trigger] esv[t]).1 == 2 && esv[t].2 == m),
            decreases es@.len() - k + (if found {
                0int
            } else {
                1int
            }),
        {
            proof {
                assert(esv[k as int] == (es@[k as int].name@, es@[k as int].kind, es@[
                    k as int
                ].index));
            }
            if es[k].kind == 2 && es[k].index == m {
                found = true;
            } else {
                k += 1;
            }
        }
        if !found {
            let name = make_mem_name(m);
            out.push(ExportEntry { name, kind: 2, index: m });
            proof {
                assert(!has_mem_export(esv, m));
                assert(exports_view(out@) =~= prev.push((mem_export_name(m as nat), 2u8, m)));
            }
        }
        m += 1;
    }
    // Synthetic exports for mutable globals.
    let mut j: usize = 0;
    proof {
        assert(exports_view(out@) =~= esv + mem_synths(esv, n_mems as nat) + glob_synths(gsv, 0));
    }
    while j < gs.len()
        invariant
            j <= gs@.len(),
            gs@.len() < 0x1_0000_0000,
            esv == exports_view(es@),
            gsv == globals_view(gs@),
            gsv.len() == gs@.len(),
            exports_view(out@) == esv + mem_synths(esv, n_mems as nat) + glob_synths(
                gsv,
                j as nat,
            ),
        decreases gs@.len() - j,
    {
        let ghost prev = exports_view(out@);
        proof {
            assert(gsv[j as int] == (gs@[j as int].valtype, gs@[j as int].mutable, gs@[
                j as int
            ].init@));
        }
        if gs[j].mutable {
            let name = make_glob_name(j as u32);
            out.push(ExportEntry { name, kind: 3, index: j as u32 });
            proof {
                assert(exports_view(out@) =~= prev.push(
                    (glob_export_name(j as nat), 3u8, j as u32),
                ));
            }
        }
        j += 1;
    }
    proof {
        assert(glob_synths(gsv, j as nat) =~= glob_synths(gsv, gsv.len()));
    }
    out
}


/// Whether every section body is small enough to re-frame.
pub open spec fn sections_small(ss: Seq<(u8, Seq<u8>)>) -> bool {
    forall|t: int| 0 <= t < ss.len() ==> (#[trigger] ss[t]).1.len() < 0x1_0000_0000
}

/// The defined-memory count and the decoded globals of a module, needed to
/// plan the synthetic exports.
pub open spec fn instr_inputs(ss: Seq<(u8, Seq<u8>)>) -> Result<
    (nat, Seq<(u8, bool, Seq<u8>)>),
    ErrorKind,
> {
    let nm = (match first_section(ss, 5, 0) {
        None => Ok(0 as nat),
        Some(mb) => match dec_memory_section(mb) {
            None => Err(ErrorKind::MalformedInput),
            Some(ms) => Ok(ms.len()),
        },
    });
    let gl = (match first_section(ss, 6, 0) {
        None => Ok(Seq::<(u8, bool, Seq<u8>)>::empty()),
        Some(gb) => match dec_global_section(gb) {
            None => Err(ErrorKind::MalformedInput),
            Some(gs) => Ok(gs),
        },
    });
    match (nm, gl) {
        (Ok(n), Ok(g)) => Ok((n, g)),
        _ => Err(ErrorKind::MalformedInput),
    }
}

/// The section list with every export section's body replaced.
pub open spec fn replace_exports(ss: Seq<(u8, Seq<u8>)>, nb: Seq<u8>) -> Seq<(u8, Seq<u8>)> {
    ss.map(
        |t: int, sec: (u8, Seq<u8>)|
            if sec.0 == 7 {
                (7u8, nb)
            } else {
                sec
            },
    )
}

/// The instrumented section list: the export section grows by the synthetic
/// exports; everything else is unchanged. A module without an export section
/// has no initializer export either, so it is left as it is.
pub open spec fn instrument_spec(ss: Seq<(u8, Seq<u8>)>) -> Result<Seq<(u8, Seq<u8>)>, ErrorKind> {
    if !sections_small(ss) {
        Err(ErrorKind::MalformedInput)
    } else {
        match first_section(ss, 7, 0) {
            None => Ok(ss),
            Some(eb) => match dec_export_section(eb) {
                None => Err(ErrorKind::MalformedInput),
                Some(es) => match instr_inputs(ss) {
                    Err(e) => Err(e),
                    Ok((nm, gl)) => if nm < 0x1_0000_0000 && gl.len() < 0x1_0000_0000 && names_ok(
                        instrumented_exports(es, nm, gl),
                    ) && enc_export_body(instrumented_exports(es, nm, gl)).len()
                        < 0x1_0000_0000 {
                        Ok(replace_exports(ss, enc_export_body(instrumented_exports(es, nm, gl))))
                    } else {
                        Err(ErrorKind::MalformedInput)
                    },
                },
            },
        }
    }
}

/// Find the first section with this id.
pub fn find_first_section(secs: &Vec<RawSection>, id: u8) -> (r: Option<usize>)
    ensures
        (match r {
            Some(t) => t < secs@.len() && secs@[t as int].id == id && first_section(
                sections_view(secs@),
                id,
                0,
            ) == Some(secs@[t as int].body@),
            None => first_section(sections_view(secs@), id, 0) is None,
        }),
{
    let ghost ss = sections_view(secs@);
    let mut j: usize = 0;
    while j < secs.len()
        invariant
            j <= secs@.len(),
            ss == sections_view(secs@),
            ss.len() == secs@.len(),
            first_section(ss, id, 0) == first_section(ss, id, j as int),
        decreases secs@.len() - j,
    {
        proof {
            assert(ss[j as int] == (secs@[j as int].id, secs@[j as int].body@));
        }
        if secs[j].id == id {
            return Some(j);
        }
        j += 1;
    }
    None
}

/// Instrument a parsed module into the augmented module's bytes, exactly as
/// `instrument_spec` describes: the header, then the sections with the
/// export section grown by the synthetic exports.
#[verifier::rlimit(100)]
pub fn instrument_module(secs: &Vec<RawSection>) -> (r: Result<Vec<u8>, ErrorKind>)
    ensures
        (match r {
            Ok(out) => instrument_spec(sections_view(secs@)) matches Ok(list) && out@
                == enc_module(list),
            Err(e) => instrument_spec(sections_view(secs@)) == Err::<Seq<(u8, Seq<u8>)>, ErrorKind>(
                e,
            ),
        }),
{
    let ghost ss = sections_view(secs@);
    // Every body must be small enough to re-frame.
    let mut j: usize = 0;
    while j < secs.len()
        invariant
            j <= secs@.len(),
            ss == sections_view(secs@),
            ss.len() == secs@.len(),
            forall|t: int| 0 <= t < j ==> (#[trigger] ss[t]).1.len() < 0x1_0000_0000,
        decreases secs@.len() - j,
    {
        proof {
            assert(ss[j as int] == (secs@[j as int].id, secs@[j as int].body@));
        }
        if !((secs[j].body.len() as u64) < 0x1_0000_0000u64) {
            return Err(ErrorKind::MalformedInput);
        }
        j += 1;
    }
    proof {
        assert(sections_small(ss));
    }
    // Decode what the plan needs.
    let new_body: Option<Vec<u8>> = match find_first_section(secs, 7) {
        None => None,
        Some(t7) => {
            let es = match decode_exports(secs[t7].body.as_slice()) {
                None => {
                    return Err(ErrorKind::MalformedInput);
                },
                Some(x) => x,
            };
            let n_mems: u32 = match find_first_section(secs, 5) {
                None => 0,
                Some(t5) => match decode_memories(secs[t5].body.as_slice()) {
                    None => {
                        return Err(ErrorKind::MalformedInput);
                    },
                    Some(ms) => {
                        if !((ms.len() as u64) < 0x1_0000_0000u64) {
                            return Err(ErrorKind::MalformedInput);
                        }
                        ms.len() as u32
                    },
                },
            };
            let gl: Vec<GlobalEntry> = match find_first_section(secs, 6) {
                None => Vec::new(),
                Some(t6) => match decode_globals(secs[t6].body.as_slice()) {
                    None => {
                        return Err(ErrorKind::MalformedInput);
                    },
                    Some(x) => x,
                },
            };
            if !((gl.len() as u64) < 0x1_0000_0000u64) {
                return Err(ErrorKind::MalformedInput);
            }
            proof {
                assert(globals_view(gl@) =~= (match instr_inputs(ss) {
                    Ok((n, g)) => g,
                    Err(_) => globals_view(gl@),
                }));
            }
            let new_es = instrument_exports(&es, n_mems, &gl);
            if !check_names_ok(&new_es) {
                return Err(ErrorKind::MalformedInput);
            }
            proof {
                assert forall|t: int|
                    0 <= t < new_es@.len() implies (#[trigger] new_es@[t]).name@.len()
                    < 0x1_0000_0000 by {
                    assert(exports_view(new_es@)[t] == (new_es@[t].name@, new_es@[t].kind, new_es@[
                        t
                    ].index));
                }
            }
            let body = build_export_body(&new_es);
            if !((body.len() as u64) < 0x1_0000_0000u64) {
                return Err(ErrorKind::MalformedInput);
            }
            Some(body)
        },
    };
    let ghost list = (match instrument_spec(ss) {
        Ok(l) => l,
        Err(_) => ss,
    });
    proof {
        assert(instrument_spec(ss) is Ok);
        match &new_body {
            Some(nb) => {
                assert(list =~= replace_exports(ss, nb@));
            },
            None => {
                assert(list =~= ss);
            },
        }
    }
    // Emit: the header, then the sections, swapping in the new export body.
    let mut out: Vec<u8> = Vec::new();
    out.push(0);
    out.push(0x61);
    out.push(0x73);
    out.push(0x6d);
    out.push(1);
    out.push(0);
    out.push(0);
    out.push(0);
    proof {
        assert(list.take(0) =~= Seq::<(u8, Seq<u8>)>::empty());
        assert(out@ =~= header_bytes() + enc_sections(list.take(0)));
    }
    let mut k: usize = 0;
    while k < secs.len()
        invariant
            k <= secs@.len(),
            ss == sections_view(secs@),
            ss.len() == secs@.len(),
            sections_small(ss),
            list.len() == ss.len(),
            (match new_body {
                Some(nb) => list == replace_exports(ss, nb@) && nb@.len() < 0x1_0000_0000,
                None => list == ss && first_section(ss, 7, 0) is None,
            }),
            out@ == header_bytes() + enc_sections(list.take(k as int)),
        decreases secs@.len() - k,
    {
        proof {
            assert(ss[k as int] == (secs@[k as int].id, secs@[k as int].body@));
            assert(list.take(k as int + 1).drop_last() =~= list.take(k as int));
            assert(list.take(k as int + 1).last() == list[k as int]);
        }
        let is_export = secs[k].id == 7;
        match (&new_body, is_export) {
            (Some(nb), true) => {
                write_section(&mut out, 7, nb.as_slice());
            },
            _ => {
                proof {
                    assert(list[k as int] == ss[k as int]);
                }
                write_section(&mut out, secs[k].id, secs[k].body.as_slice());
            },
        }
        proof {
            assert(out@ =~= header_bytes() + enc_sections(list.take(k as int + 1)));
        }
        k += 1;
    }
    proof {
        assert(list.take(k as int) =~= list);
    }
    Ok(out)
}


} // verus!
