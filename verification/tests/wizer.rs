use wizer::instrument::instrument_module;
use wizer::machine::{step, RunEvent, RunState};
use wizer::parse::{decode_exports, decode_globals, decode_memories, validate_init_func, ExportEntry, FuncType};
use wizer::renames::FuncRenames;
use wizer::rewrite::{rewrite_exports, rewrite_module};
use wizer::sections::split_sections;
use wizer::snapshot::{nonzero_runs, GlobalVal, MemSnapshot, Snapshot};
use wizer::validate::extra_validation;
use wizer::ErrorKind;
use wizer::Wizer;

fn uleb(mut v: u32) -> Vec<u8> {
    let mut out = Vec::new();
    loop {
        if v < 128 {
            out.push(v as u8);
            return out;
        }
        out.push((v % 128 + 128) as u8);
        v /= 128;
    }
}

fn section(id: u8, body: &[u8]) -> Vec<u8> {
    let mut out = vec![id];
    out.extend_from_slice(&uleb(body.len() as u32));
    out.extend_from_slice(body);
    out
}

fn module(sections: &[Vec<u8>]) -> Vec<u8> {
    let mut out = vec![0, 0x61, 0x73, 0x6d, 1, 0, 0, 0];
    for s in sections {
        out.extend_from_slice(s);
    }
    out
}

fn export_body(exports: &[(&str, u8, u32)]) -> Vec<u8> {
    let mut body = uleb(exports.len() as u32);
    for (name, kind, idx) in exports {
        body.extend_from_slice(&uleb(name.len() as u32));
        body.extend_from_slice(name.as_bytes());
        body.push(*kind);
        body.extend_from_slice(&uleb(*idx));
    }
    body
}

/// A minimal module: one `[] -> []` function type, one function, one memory
/// of one page, one mutable i32 global initialized to zero, the given
/// exports, and one empty function body.
fn tiny_module(exports: &[(&str, u8, u32)]) -> Vec<u8> {
    module(&[
        section(1, &[0x01, 0x60, 0x00, 0x00]),
        section(3, &[0x01, 0x00]),
        section(5, &[0x01, 0x00, 0x01]),
        section(6, &[0x01, 0x7f, 0x01, 0x41, 0x00, 0x0b]),
        section(7, &export_body(exports)),
        section(10, &[0x01, 0x02, 0x00, 0x0b]),
    ])
}

fn one_page_snapshot(writes: &[(usize, u8)], pages: u32, global: u32) -> Snapshot {
    let mut data = vec![0u8; pages as usize * 65536];
    for (off, b) in writes {
        data[*off] = *b;
    }
    Snapshot {
        memories: vec![MemSnapshot { page_count: pages, data }],
        globals: vec![Some(GlobalVal::I32(global))],
        adapter_initialized: false,
    }
}

#[test]
fn builder_defaults() {
    let w = Wizer::new();
    assert_eq!(w.init_func, "wizer.initialize");
    assert!(w.func_renames.is_empty());
    assert!(!w.allow_wasi);
    assert_eq!(w.inherit_stdio, None);
    assert_eq!(w.inherit_env, None);
    assert!(w.dirs.is_empty());
    assert_eq!(w.wasm_multi_memory, None);
    assert_eq!(w.wasm_multi_value, None);
    assert_eq!(w.wasm_module_linking, None);
}

#[test]
fn builder_setters() {
    let mut w = Wizer::new();
    w.init_func("boot".to_string());
    w.func_rename("run".to_string(), "_start".to_string());
    w.allow_wasi(true);
    w.inherit_stdio(false);
    w.inherit_env(true);
    w.dir("data".to_string());
    w.wasm_multi_memory(false);
    w.wasm_multi_value(false);
    w.wasm_module_linking(true);
    assert_eq!(w.init_func, "boot");
    assert_eq!(w.func_renames, vec!["run=_start".to_string()]);
    assert!(w.allow_wasi);
    assert_eq!(w.inherit_stdio, Some(false));
    assert_eq!(w.inherit_env, Some(true));
    assert_eq!(w.dirs, vec!["data".to_string()]);
    assert_eq!(w.wasm_multi_memory, Some(false));
    assert_eq!(w.wasm_multi_value, Some(false));
    assert_eq!(w.wasm_module_linking, Some(true));
}

#[test]
fn features_defaults_and_overrides() {
    let mut w = Wizer::new();
    let f = w.features();
    assert!(f.multi_memory && f.multi_value && f.bulk_memory && !f.module_linking);
    w.wasm_multi_memory(false);
    w.wasm_module_linking(true);
    let f = w.features();
    assert!(!f.multi_memory && f.multi_value && f.module_linking && f.bulk_memory);
}

#[test]
fn renames_parse_ok() {
    let fr = FuncRenames::parse(&vec!["run=_start".to_string()]).unwrap();
    assert_eq!(fr.pairs.len(), 1);
    assert_eq!(fr.pairs[0].0, b"_start".to_vec());
    assert_eq!(fr.pairs[0].1, b"run".to_vec());
}

#[test]
fn renames_parse_missing_separator() {
    let r = FuncRenames::parse(&vec!["nonsense".to_string()]);
    assert_eq!(r.err(), Some(ErrorKind::MalformedRename));
}

#[test]
fn renames_parse_duplicate_dst() {
    let r = FuncRenames::parse(&vec!["a=b".to_string(), "a=c".to_string()]);
    assert_eq!(r.err(), Some(ErrorKind::DuplicateRename));
}

#[test]
fn renames_parse_duplicate_src() {
    let r = FuncRenames::parse(&vec!["a=b".to_string(), "c=b".to_string()]);
    assert_eq!(r.err(), Some(ErrorKind::DuplicateRename));
}

#[test]
fn leb_round_trip() {
    let mut out = Vec::new();
    wizer::leb::write_u32(&mut out, 624485);
    assert_eq!(out, vec![0xe5, 0x8e, 0x26]);
    assert_eq!(wizer::leb::read_u32(&out, 0), Some((624485, 3)));
    let mut s = Vec::new();
    wizer::leb::write_sleb(&mut s, -1);
    assert_eq!(s, vec![0x7f]);
    let mut s2 = Vec::new();
    wizer::leb::write_sleb(&mut s2, -123456);
    assert_eq!(s2, vec![0xc0, 0xbb, 0x78]);
}

#[test]
fn split_rejects_bad_header() {
    assert!(split_sections(&[0, 0x61, 0x73, 0x6d, 2, 0, 0, 0]).is_none());
    assert!(split_sections(&[0, 0x61, 0x73]).is_none());
}

#[test]
fn extra_validation_clean_module() {
    let m = tiny_module(&[("wizer.initialize", 0, 0)]);
    let secs = split_sections(&m).unwrap();
    assert_eq!(extra_validation(&secs), Ok(()));
}

#[test]
fn extra_validation_blocks_table_copy() {
    // One function body holding `table.copy 0 0`: 0xfc 0x0e 0x00 0x00.
    let body = [0x01, 0x06, 0x00, 0xfc, 0x0e, 0x00, 0x00, 0x0b];
    let m = module(&[
        section(1, &[0x01, 0x60, 0x00, 0x00]),
        section(3, &[0x01, 0x00]),
        section(10, &body),
    ]);
    let secs = split_sections(&m).unwrap();
    assert_eq!(extra_validation(&secs), Err(ErrorKind::UnsupportedInstruction));
}

#[test]
fn extra_validation_blocks_data_drop() {
    // `data.drop 0`: 0xfc 0x09 0x00.
    let body = [0x01, 0x05, 0x00, 0xfc, 0x09, 0x00, 0x0b];
    let m = module(&[
        section(1, &[0x01, 0x60, 0x00, 0x00]),
        section(3, &[0x01, 0x00]),
        section(10, &body),
    ]);
    let secs = split_sections(&m).unwrap();
    assert_eq!(extra_validation(&secs), Err(ErrorKind::UnsupportedInstruction));
}

#[test]
fn extra_validation_blocks_passive_segment() {
    // A data section with one passive segment (flags 1).
    let data = [0x01, 0x01, 0x02, 0xaa, 0xbb];
    let m = module(&[section(5, &[0x01, 0x00, 0x01]), section(11, &data)]);
    let secs = split_sections(&m).unwrap();
    assert_eq!(extra_validation(&secs), Err(ErrorKind::UnsupportedDataKind));
}

#[test]
fn extra_validation_allows_active_segment() {
    let data = [0x01, 0x00, 0x41, 0x10, 0x0b, 0x02, 0xaa, 0xbb];
    let m = module(&[section(5, &[0x01, 0x00, 0x01]), section(11, &data)]);
    let secs = split_sections(&m).unwrap();
    assert_eq!(extra_validation(&secs), Ok(()));
}

#[test]
fn init_func_checks() {
    let arities = vec![Some(FuncType { params: 0, results: 0 }), Some(FuncType { params: 1, results: 0 })];
    let es = |list: &[(&str, u8, u32)]| -> Vec<ExportEntry> {
        list.iter()
            .map(|(n, k, i)| ExportEntry { name: n.as_bytes().to_vec(), kind: *k, index: *i })
            .collect()
    };
    // Present with the right type.
    let ok = es(&[("wizer.initialize", 0, 0)]);
    assert_eq!(validate_init_func(&ok, &arities, b"wizer.initialize"), Ok(()));
    // Missing.
    let missing = es(&[("other", 0, 0)]);
    assert_eq!(
        validate_init_func(&missing, &arities, b"wizer.initialize"),
        Err(ErrorKind::BadInitFunc)
    );
    // Not a function.
    let not_func = es(&[("wizer.initialize", 2, 0)]);
    assert_eq!(
        validate_init_func(&not_func, &arities, b"wizer.initialize"),
        Err(ErrorKind::BadInitFunc)
    );
    // Wrong arity.
    let wrong = es(&[("wizer.initialize", 0, 1)]);
    assert_eq!(
        validate_init_func(&wrong, &arities, b"wizer.initialize"),
        Err(ErrorKind::BadInitFunc)
    );
}

#[test]
fn nonzero_runs_split() {
    let mem = [0u8, 0, 1, 2, 0, 3];
    let runs = nonzero_runs(&mem);
    assert_eq!(runs.len(), 2);
    assert_eq!(runs[0], (2, vec![1, 2]));
    assert_eq!(runs[1], (5, vec![3]));
    assert!(nonzero_runs(&[0u8; 16]).is_empty());
}

#[test]
fn instrument_adds_synthetic_exports() {
    let m = tiny_module(&[("wizer.initialize", 0, 0)]);
    let secs = split_sections(&m).unwrap();
    let out = instrument_module(&secs).unwrap();
    let out_secs = split_sections(&out).unwrap();
    let export_sec = out_secs.iter().find(|s| s.id == 7).unwrap();
    let es = decode_exports(&export_sec.body).unwrap();
    let names: Vec<Vec<u8>> = es.iter().map(|e| e.name.clone()).collect();
    assert!(names.contains(&b"wizer.initialize".to_vec()));
    assert!(names.contains(&b"__wizer_memory_0".to_vec()));
    assert!(names.contains(&b"__wizer_global_0".to_vec()));
    assert_eq!(es.len(), 3);
    // Index spaces untouched: every other section is byte-identical.
    let in_secs = split_sections(&m).unwrap();
    for (a, b) in in_secs.iter().zip(out_secs.iter()) {
        if a.id != 7 {
            assert_eq!(a.body, b.body);
        }
    }
}

#[test]
fn rewrite_bakes_in_memory_and_global() {
    // The initializer wrote bytes [1,2,3,4] at offset 16 and set the mutable
    // global to 42; the output carries both in its initial state, and the
    // initializer export is gone.
    let m = tiny_module(&[("wizer.initialize", 0, 0), ("g", 3, 0)]);
    let secs = split_sections(&m).unwrap();
    let snap = one_page_snapshot(&[(16, 1), (17, 2), (18, 3), (19, 4)], 1, 42);
    let fr = FuncRenames::parse(&vec![]).unwrap();
    let out = rewrite_module(&secs, &snap, &fr, b"wizer.initialize").unwrap();
    let out_secs = split_sections(&out).unwrap();
    // Data: one active segment at offset 16 with exactly those bytes.
    let data_sec = out_secs.iter().find(|s| s.id == 11).unwrap();
    assert_eq!(data_sec.body, vec![0x01, 0x00, 0x41, 0x10, 0x0b, 0x04, 1, 2, 3, 4]);
    // Global: initializer replaced by `i32.const 42`.
    let glob_sec = out_secs.iter().find(|s| s.id == 6).unwrap();
    let gs = decode_globals(&glob_sec.body).unwrap();
    assert_eq!(gs.len(), 1);
    assert!(gs[0].mutable);
    assert_eq!(gs[0].init, vec![0x41, 42, 0x0b]);
    // Exports: the initializer is gone, `g` stays.
    let export_sec = out_secs.iter().find(|s| s.id == 7).unwrap();
    let es = decode_exports(&export_sec.body).unwrap();
    assert_eq!(es.len(), 1);
    assert_eq!(es[0].name, b"g".to_vec());
}

#[test]
fn rewrite_grows_memory() {
    // The initializer grew memory 0 by one page and wrote 0xff at 65536: the
    // output declares two pages and a segment covering that offset.
    let m = tiny_module(&[("wizer.initialize", 0, 0)]);
    let secs = split_sections(&m).unwrap();
    let snap = one_page_snapshot(&[(65536, 0xff)], 2, 0);
    let fr = FuncRenames::parse(&vec![]).unwrap();
    let out = rewrite_module(&secs, &snap, &fr, b"wizer.initialize").unwrap();
    let out_secs = split_sections(&out).unwrap();
    let mem_sec = out_secs.iter().find(|s| s.id == 5).unwrap();
    let ms = decode_memories(&mem_sec.body).unwrap();
    assert_eq!(ms.len(), 1);
    assert_eq!(ms[0].min, 2);
    let data_sec = out_secs.iter().find(|s| s.id == 11).unwrap();
    // One segment: flags 0, i32.const 65536 (0x80 0x80 0x04), one byte 0xff.
    assert_eq!(data_sec.body, vec![0x01, 0x00, 0x41, 0x80, 0x80, 0x04, 0x0b, 0x01, 0xff]);
}

#[test]
fn rename_displaces_existing_export() {
    // Renaming `run=_start` on a module exporting both: the output's `run` is
    // the function previously exported as `_start`, and the old `run` is gone.
    let es = vec![
        ExportEntry { name: b"run".to_vec(), kind: 0, index: 1 },
        ExportEntry { name: b"_start".to_vec(), kind: 0, index: 2 },
    ];
    let fr = FuncRenames::parse(&vec!["run=_start".to_string()]).unwrap();
    let out = rewrite_exports(&es, &fr, b"wizer.initialize");
    assert_eq!(out.len(), 1);
    assert_eq!(out[0].name, b"run".to_vec());
    assert_eq!(out[0].index, 2);
}

#[test]
fn rewrite_keeps_unrelated_exports_in_order() {
    let es = vec![
        ExportEntry { name: b"a".to_vec(), kind: 0, index: 0 },
        ExportEntry { name: b"__wizer_memory_0".to_vec(), kind: 2, index: 0 },
        ExportEntry { name: b"b".to_vec(), kind: 0, index: 1 },
    ];
    let fr = FuncRenames::parse(&vec![]).unwrap();
    let out = rewrite_exports(&es, &fr, b"wizer.initialize");
    assert_eq!(out.len(), 2);
    assert_eq!(out[0].name, b"a".to_vec());
    assert_eq!(out[1].name, b"b".to_vec());
}

#[test]
fn prepare_then_finish_round() {
    let w = Wizer::new();
    let m = tiny_module(&[("wizer.initialize", 0, 0), ("keep", 0, 0)]);
    let (instrumented, fr) = w.prepare(&m).unwrap();
    let isecs = split_sections(&instrumented).unwrap();
    let export_sec = isecs.iter().find(|s| s.id == 7).unwrap();
    let es = decode_exports(&export_sec.body).unwrap();
    assert!(es.iter().any(|e| e.name == b"__wizer_global_0".to_vec()));
    // Rewrite from a snapshot with nothing written: no data section appears,
    // and the initializer export is gone.
    let snap = one_page_snapshot(&[], 1, 0);
    let out = w.finish(&m, &snap, &fr).unwrap();
    let out_secs = split_sections(&out).unwrap();
    assert!(out_secs.iter().all(|s| s.id != 11));
    let export_sec = out_secs.iter().find(|s| s.id == 7).unwrap();
    let es = decode_exports(&export_sec.body).unwrap();
    assert_eq!(es.len(), 1);
    assert_eq!(es[0].name, b"keep".to_vec());
}

#[test]
fn prepare_rejects_blocked_module() {
    // A module the external validator accepts, with a `table.copy` in its one
    // function body: the extra validation pass rejects it.
    let w = Wizer::new();
    let body = [
        0x01, 0x0c, 0x00, 0x41, 0x00, 0x41, 0x00, 0x41, 0x00, 0xfc, 0x0e, 0x00, 0x00, 0x0b,
    ];
    let m = module(&[
        section(1, &[0x01, 0x60, 0x00, 0x00]),
        section(3, &[0x01, 0x00]),
        section(4, &[0x01, 0x70, 0x00, 0x00]),
        section(10, &body),
    ]);
    assert_eq!(w.wasm_validate(&m), Err(ErrorKind::UnsupportedInstruction));
    assert_eq!(w.prepare(&m).err(), Some(ErrorKind::UnsupportedInstruction));
}

#[test]
fn machine_happy_path_and_failures() {
    let s = RunState::Parsed;
    let s = step(&s, &RunEvent::ValidationPassed);
    assert_eq!(s, RunState::Validated);
    let s = step(&s, &RunEvent::InstrumentedOk);
    assert_eq!(s, RunState::Instrumented);
    let s = step(&s, &RunEvent::InstantiatedOk);
    assert_eq!(s, RunState::Instantiated);
    // An initializer that calls a non-permitted import traps the run.
    let trapped = step(&s, &RunEvent::InitCalledImport);
    assert_eq!(trapped, RunState::Failed(ErrorKind::InitCalledImport));
    // No recovery.
    let still = step(&trapped, &RunEvent::InitReturned);
    assert_eq!(still, RunState::Failed(ErrorKind::InitCalledImport));
    // The happy path runs to completion.
    let s = step(&s, &RunEvent::InitReturned);
    let s = step(&s, &RunEvent::SnapshotTaken);
    let s = step(&s, &RunEvent::RewriteOk);
    let s = step(&s, &RunEvent::Finished);
    assert_eq!(s, RunState::Done);
}

#[test]
fn output_validates_under_same_features() {
    // The rewritten module passes the same validation as the input.
    let w = Wizer::new();
    let m = tiny_module(&[("wizer.initialize", 0, 0), ("g", 3, 0)]);
    assert_eq!(w.wasm_validate(&m), Ok(()));
    let snap = one_page_snapshot(&[(16, 1), (17, 2), (18, 3), (19, 4)], 1, 42);
    let fr = FuncRenames::parse(&vec![]).unwrap();
    let secs = split_sections(&m).unwrap();
    let out = rewrite_module(&secs, &snap, &fr, b"wizer.initialize").unwrap();
    assert_eq!(w.wasm_validate(&out), Ok(()));
}

#[test]
fn instrumented_module_validates() {
    let w = Wizer::new();
    let m = tiny_module(&[("wizer.initialize", 0, 0)]);
    let (instrumented, _) = w.prepare(&m).unwrap();
    assert_eq!(w.wasm_validate(&instrumented), Ok(()));
}

#[test]
fn garbage_input_is_invalid() {
    let w = Wizer::new();
    assert_eq!(w.wasm_validate(&[1, 2, 3, 4]), Err(ErrorKind::InvalidInput));
}

#[test]
fn wat_module_round_trip() {
    // A textual module with an initializer, a mutable global and a memory.
    let m = wat::parse_str(
        "(module
            (memory (export \"mem\") 1)
            (global (export \"g\") (mut i32) (i32.const 0))
            (func (export \"wizer.initialize\")
                i32.const 16
                i32.const 7
                i32.store8)
            (func (export \"run\") (result i32)
                i32.const 16
                i32.load8_u))",
    )
    .unwrap();
    let w = Wizer::new();
    assert_eq!(w.wasm_validate(&m), Ok(()));
    let (instrumented, fr) = w.prepare(&m).unwrap();
    assert_eq!(w.wasm_validate(&instrumented), Ok(()));
    // The memory is already exported as "mem", so only the mutable global
    // gets a synthetic export.
    let isecs = split_sections(&instrumented).unwrap();
    let ies = decode_exports(&isecs.iter().find(|s| s.id == 7).unwrap().body).unwrap();
    let inames: Vec<Vec<u8>> = ies.iter().map(|e| e.name.clone()).collect();
    assert!(!inames.contains(&b"__wizer_memory_0".to_vec()));
    assert!(inames.contains(&b"__wizer_global_0".to_vec()));
    // As if the engine had run the initializer: byte 7 at offset 16.
    let snap = one_page_snapshot(&[(16, 7)], 1, 0);
    let out = w.finish(&m, &snap, &fr).unwrap();
    assert_eq!(w.wasm_validate(&out), Ok(()));
    let out_secs = split_sections(&out).unwrap();
    let data_sec = out_secs.iter().find(|s| s.id == 11).unwrap();
    assert_eq!(data_sec.body, vec![0x01, 0x00, 0x41, 0x10, 0x0b, 0x01, 7]);
    let es = decode_exports(&out_secs.iter().find(|s| s.id == 7).unwrap().body).unwrap();
    let names: Vec<Vec<u8>> = es.iter().map(|e| e.name.clone()).collect();
    assert!(!names.contains(&b"wizer.initialize".to_vec()));
    assert!(names.contains(&b"run".to_vec()));
}

#[test]
fn finish_applies_renames() {
    let mut w = Wizer::new();
    w.func_rename("begin".to_string(), "run".to_string());
    let m = tiny_module(&[("wizer.initialize", 0, 0), ("run", 0, 0)]);
    let (_, fr) = w.prepare(&m).unwrap();
    let snap = one_page_snapshot(&[], 1, 0);
    let out = w.finish(&m, &snap, &fr).unwrap();
    assert_eq!(w.wasm_validate(&out), Ok(()));
    let out_secs = split_sections(&out).unwrap();
    let es = decode_exports(&out_secs.iter().find(|s| s.id == 7).unwrap().body).unwrap();
    assert_eq!(es.len(), 1);
    assert_eq!(es[0].name, b"begin".to_vec());
    assert_eq!(es[0].kind, 0);
    assert_eq!(es[0].index, 0);
}

#[test]
fn scan_handles_multi_memory_memarg() {
    // A store to memory 1: the memarg's bit-6 flags carry a memory index,
    // and the scan must step over it.
    let w = Wizer::new();
    let body = [
        0x01, 0x0a, 0x00, 0x41, 0x00, 0x41, 0x07, 0x36, 0x42, 0x01, 0x00, 0x0b,
    ];
    let m = module(&[
        section(1, &[0x01, 0x60, 0x00, 0x00]),
        section(3, &[0x01, 0x00]),
        section(5, &[0x02, 0x00, 0x01, 0x00, 0x01]),
        section(7, &export_body(&[("wizer.initialize", 0, 0)])),
        section(10, &body),
    ]);
    assert_eq!(w.wasm_validate(&m), Ok(()));
}

#[test]
fn scan_sees_blocked_instruction_after_memarg() {
    // A bit-6 memarg whose offset byte would read as a branch opcode if the
    // memory index were skipped wrongly; the table.copy right after it must
    // still be caught.
    let body = [
        0x01, 0x0d, 0x00, 0x41, 0x00, 0x41, 0x00, 0x36, 0x42, 0x01, 0x0c, 0xfc, 0x0e, 0x00, 0x00,
        0x0b,
    ];
    let m = module(&[
        section(1, &[0x01, 0x60, 0x00, 0x00]),
        section(3, &[0x01, 0x00]),
        section(10, &body),
    ]);
    let secs = split_sections(&m).unwrap();
    assert_eq!(extra_validation(&secs), Err(ErrorKind::UnsupportedInstruction));
}

#[test]
fn rewrite_updates_data_count_section() {
    // A module carrying a data-count section: the rewriter re-emits it with
    // the regenerated segment count so the output still validates.
    let m = module(&[
        section(1, &[0x01, 0x60, 0x00, 0x00]),
        section(3, &[0x01, 0x00]),
        section(5, &[0x01, 0x00, 0x01]),
        section(7, &export_body(&[("wizer.initialize", 0, 0)])),
        section(12, &[0x01]),
        section(10, &[0x01, 0x02, 0x00, 0x0b]),
        section(11, &[0x01, 0x00, 0x41, 0x00, 0x0b, 0x01, 0xaa]),
    ]);
    let w = Wizer::new();
    assert_eq!(w.wasm_validate(&m), Ok(()));
    let secs = split_sections(&m).unwrap();
    let mut data = vec![0u8; 65536];
    data[0] = 5;
    data[100] = 9;
    let snap = Snapshot {
        memories: vec![MemSnapshot { page_count: 1, data }],
        globals: vec![],
        adapter_initialized: false,
    };
    let fr = FuncRenames::parse(&vec![]).unwrap();
    let out = rewrite_module(&secs, &snap, &fr, b"wizer.initialize").unwrap();
    let out_secs = split_sections(&out).unwrap();
    assert_eq!(out_secs.iter().find(|s| s.id == 12).unwrap().body, vec![0x02]);
    assert_eq!(out_secs.iter().find(|s| s.id == 11).unwrap().body[0], 0x02);
    assert_eq!(w.wasm_validate(&out), Ok(()));
    // With nothing written, both the data and the data-count section go.
    let empty_snap = Snapshot {
        memories: vec![MemSnapshot { page_count: 1, data: vec![0u8; 65536] }],
        globals: vec![],
        adapter_initialized: false,
    };
    let out2 = rewrite_module(&secs, &empty_snap, &fr, b"wizer.initialize").unwrap();
    let out2_secs = split_sections(&out2).unwrap();
    assert!(out2_secs.iter().all(|s| s.id != 11 && s.id != 12));
    assert_eq!(w.wasm_validate(&out2), Ok(()));
}

#[test]
fn imported_global_is_rejected() {
    // The supported profile forbids imported tables, memories and globals.
    let w = Wizer::new();
    let imports = [0x01, 0x01, 0x65, 0x01, 0x67, 0x03, 0x7f, 0x00];
    let m = module(&[section(2, &imports)]);
    assert_eq!(w.wasm_validate(&m), Err(ErrorKind::InvalidInput));
}

#[test]
fn imported_function_is_allowed() {
    let w = Wizer::new();
    let imports = [0x01, 0x01, 0x65, 0x01, 0x66, 0x00, 0x00];
    let m = module(&[section(1, &[0x01, 0x60, 0x00, 0x00]), section(2, &imports)]);
    assert_eq!(w.wasm_validate(&m), Ok(()));
}

#[test]
fn missing_global_value_is_an_error() {
    // The snapshot must hand a value for every mutable global.
    let m = tiny_module(&[("wizer.initialize", 0, 0)]);
    let secs = split_sections(&m).unwrap();
    let snap = Snapshot {
        memories: vec![MemSnapshot { page_count: 1, data: vec![0u8; 65536] }],
        globals: vec![None],
        adapter_initialized: false,
    };
    let fr = FuncRenames::parse(&vec![]).unwrap();
    assert_eq!(
        rewrite_module(&secs, &snap, &fr, b"wizer.initialize"),
        Err(ErrorKind::MalformedInput)
    );
}

#[test]
fn prepare_requires_init_export() {
    // No initializer export at all.
    let w = Wizer::new();
    let m = tiny_module(&[("other", 0, 0)]);
    assert_eq!(w.prepare(&m).err(), Some(ErrorKind::BadInitFunc));
    // Present, but of the wrong type.
    let m2 = module(&[
        section(1, &[0x01, 0x60, 0x01, 0x7f, 0x00]),
        section(3, &[0x01, 0x00]),
        section(7, &export_body(&[("wizer.initialize", 0, 0)])),
        section(10, &[0x01, 0x02, 0x00, 0x0b]),
    ]);
    assert_eq!(w.wasm_validate(&m2), Ok(()));
    assert_eq!(w.prepare(&m2).err(), Some(ErrorKind::BadInitFunc));
    // Present, a function import resolved across the index space.
    let imports = [0x01, 0x01, 0x65, 0x01, 0x66, 0x00, 0x00];
    let m3 = module(&[
        section(1, &[0x01, 0x60, 0x00, 0x00]),
        section(2, &imports),
        section(7, &export_body(&[("wizer.initialize", 0, 0)])),
    ]);
    assert_eq!(w.prepare(&m3).is_ok(), true);
}
