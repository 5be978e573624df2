//! Wizer: a WebAssembly pre-initializer.
//!
//! Wizer instantiates a WebAssembly module, executes its initialization
//! function inside an engine, captures the resulting state (linear memories
//! and mutable globals), and emits a new module whose initial state already
//! reflects that work, so the output "boots" without re-running the
//! initialization logic.
//!
//! The library holds the three core passes — instrumentation, snapshot
//! modelling, and rewriting — together with the extra validation pass and the
//! run state machine. The engine itself and all file or stream I/O are
//! collaborators outside this crate; they drive the state machine in
//! [`machine`] and hand plain values in and out.

use crate::instrument::instrument_spec;
use crate::parse::{
    arity_table, build_arity_table, dec_export_section, dec_func_section, dec_import_section,
    dec_type_section, decode_exports, decode_func_indices, decode_import_funcs, decode_types,
    init_func_verdict, validate_init_func, FuncType,
};
use crate::rewrite::first_section;
use crate::renames::{parse_renames_spec, spec_bytes_of, FuncRenames};
use crate::rewrite::rewrite_spec;
use crate::sections::{dec_sections, header_bytes, sections_view};
use crate::snapshot::Snapshot;
use crate::validate::{accepted_by_validator, extra_validation_from};
use vstd::prelude::*;
use vstd::string::StringExecFns;

pub mod instrument;
pub mod leb;
pub mod machine;
pub mod parse;
pub mod renames;
pub mod rewrite;
pub mod sections;
pub mod snapshot;
pub mod validate;

verus! {

/// Kinds of failure a pre-initialization run can end in.
#[derive(Clone, Copy, PartialEq, Eq, Structural, Debug)]
pub enum ErrorKind {
    /// The input is outside the accepted profile: the external validator
    /// refused it, or it imports a table, a memory or a global, which the
    /// supported profile forbids.
    InvalidInput,
    /// The extra validation pass saw a blocked instruction.
    UnsupportedInstruction,
    /// A passive data segment is present.
    UnsupportedDataKind,
    /// The initialization export is missing, not a function, or not `[] -> []`.
    BadInitFunc,
    /// The engine rejected the instrumented module.
    InstantiationFailed,
    /// Initialization invoked a non-permitted import.
    InitCalledImport,
    /// Initialization or the adapter initializer trapped for another reason.
    InitializationTrapped,
    /// The rename table names one source or one destination twice.
    DuplicateRename,
    /// A rename specification has no `=` separator.
    MalformedRename,
    /// A parser invariant was violated; unreachable after external validation.
    MalformedInput,
}

/// The feature set a run permits, handed to the external validator and to the
/// engine configuration alike. Proposals outside the supported profile are
/// always off; bulk memory is enabled for parsing only, and its table-mutating
/// instructions are rejected by the extra validation pass in [`validate`].
#[derive(Clone, Copy, PartialEq, Eq, Structural, Debug)]
pub struct Features {
    /// The multi-memory proposal.
    pub multi_memory: bool,
    /// The multi-value proposal.
    pub multi_value: bool,
    /// The module-linking proposal.
    pub module_linking: bool,
    /// Bulk memory: always enabled at parse time, since the binary format is
    /// ambiguous about data segments without it; execution of bulk-memory
    /// table instructions is blocked by the extra validation pass.
    pub bulk_memory: bool,
}

/// The pre-initializer's configuration builder.
///
/// Construct one with [`Wizer::new`], adjust it with the setter methods, and
/// hand it to the run driver. Each option mirrors one recognized
/// configuration knob; unset options fall back to their documented defaults.
#[derive(Clone, Debug)]
pub struct Wizer {
    /// The export name of the function to execute as the initializer.
    pub init_func: String,
    /// Rename specifications, each of the form `dst=src`.
    pub func_renames: Vec<String>,
    /// Allow the capability layer's host functions during initialization.
    pub allow_wasi: bool,
    /// Forward standard streams to the capability layer, if it is enabled.
    pub inherit_stdio: Option<bool>,
    /// Forward environment variables to the capability layer.
    pub inherit_env: Option<bool>,
    /// Directories preopened for the capability layer.
    pub dirs: Vec<String>,
    /// Enable or disable the multi-memory proposal.
    pub wasm_multi_memory: Option<bool>,
    /// Enable or disable the multi-value proposal.
    pub wasm_multi_value: Option<bool>,
    /// Enable or disable the module-linking proposal.
    pub wasm_module_linking: Option<bool>,
}

impl Wizer {
    /// Construct a new builder with every option at its default.
    pub fn new() -> (r: Self)
        ensures
            r.init_func@ == "wizer.initialize"@,
            r.func_renames@ == Seq::<String>::empty(),
            r.allow_wasi == false,
            r.inherit_stdio is None,
            r.inherit_env is None,
            r.dirs@ == Seq::<String>::empty(),
            r.wasm_multi_memory is None,
            r.wasm_multi_value is None,
            r.wasm_module_linking is None,
    {
        Wizer {
            init_func: "wizer.initialize".to_owned(),
            func_renames: Vec::new(),
            allow_wasi: false,
            inherit_stdio: None,
            inherit_env: None,
            dirs: Vec::new(),
            wasm_multi_memory: None,
            wasm_multi_value: None,
            wasm_module_linking: None,
        }
    }

    /// Set the export name of the initializer function.
    ///
    /// Defaults to `"wizer.initialize"`.
    pub fn init_func(&mut self, init_func: String)
        ensures
            *final(self) == (Wizer { init_func, ..*old(self) }),
    {
        self.init_func = init_func;
    }

    /// Add one function rename to perform: the export `old_name` of the
    /// initialized module is re-emitted under `new_name`.
    pub fn func_rename(&mut self, new_name: String, old_name: String)
        ensures
            final(self).func_renames@.len() == old(self).func_renames@.len() + 1,
            final(self).func_renames@.take(old(self).func_renames@.len() as int) == old(
                self,
            ).func_renames@,
            final(self).func_renames@.last()@ == new_name@ + "="@ + old_name@,
            final(self).init_func == old(self).init_func,
            final(self).allow_wasi == old(self).allow_wasi,
            final(self).inherit_stdio == old(self).inherit_stdio,
            final(self).inherit_env == old(self).inherit_env,
            final(self).dirs == old(self).dirs,
            final(self).wasm_multi_memory == old(self).wasm_multi_memory,
            final(self).wasm_multi_value == old(self).wasm_multi_value,
            final(self).wasm_module_linking == old(self).wasm_module_linking,
    {
        let mut spec_str = new_name;
        spec_str.append("=");
        spec_str.append(old_name.as_str());
        self.func_renames.push(spec_str);
        proof {
            assert(self.func_renames@.take(old(self).func_renames@.len() as int) =~= old(
                self,
            ).func_renames@);
        }
    }

    /// Allow the capability layer's host imports during initialization?
    ///
    /// Defaults to `false`.
    pub fn allow_wasi(&mut self, allow: bool)
        ensures
            *final(self) == (Wizer { allow_wasi: allow, ..*old(self) }),
    {
        self.allow_wasi = allow;
    }

    /// When the capability layer is enabled, forward the standard streams?
    ///
    /// Defaults to `true`.
    pub fn inherit_stdio(&mut self, inherit: bool)
        ensures
            *final(self) == (Wizer { inherit_stdio: Some(inherit), ..*old(self) }),
    {
        self.inherit_stdio = Some(inherit);
    }

    /// When the capability layer is enabled, forward environment variables?
    ///
    /// Defaults to `false`.
    pub fn inherit_env(&mut self, inherit: bool)
        ensures
            *final(self) == (Wizer { inherit_env: Some(inherit), ..*old(self) }),
    {
        self.inherit_env = Some(inherit);
    }

    /// Make a file system directory available to the capability layer.
    ///
    /// None are available by default.
    pub fn dir(&mut self, directory: String)
        ensures
            final(self).dirs@ == old(self).dirs@.push(directory),
            final(self).init_func == old(self).init_func,
            final(self).func_renames == old(self).func_renames,
            final(self).allow_wasi == old(self).allow_wasi,
            final(self).inherit_stdio == old(self).inherit_stdio,
            final(self).inherit_env == old(self).inherit_env,
            final(self).wasm_multi_memory == old(self).wasm_multi_memory,
            final(self).wasm_multi_value == old(self).wasm_multi_value,
            final(self).wasm_module_linking == old(self).wasm_module_linking,
    {
        self.dirs.push(directory);
    }

    /// Enable or disable the multi-memory proposal.
    ///
    /// Defaults to `true`.
    pub fn wasm_multi_memory(&mut self, enable: bool)
        ensures
            *final(self) == (Wizer { wasm_multi_memory: Some(enable), ..*old(self) }),
    {
        self.wasm_multi_memory = Some(enable);
    }

    /// Enable or disable the multi-value proposal.
    ///
    /// Defaults to `true`.
    pub fn wasm_multi_value(&mut self, enable: bool)
        ensures
            *final(self) == (Wizer { wasm_multi_value: Some(enable), ..*old(self) }),
    {
        self.wasm_multi_value = Some(enable);
    }

    /// Enable or disable the module-linking proposal.
    ///
    /// Defaults to `false`. The proposal was withdrawn and today's external
    /// validator has no switch for it, so enabling it has no effect: a
    /// module using nested modules is refused as invalid input.
    pub fn wasm_module_linking(&mut self, enable: bool)
        ensures
            *final(self) == (Wizer { wasm_module_linking: Some(enable), ..*old(self) }),
    {
        self.wasm_module_linking = Some(enable);
    }

    /// The features a run with this configuration permits, used both by the
    /// external validator and by the engine configuration.
    pub fn features(&self) -> (r: Features)
        ensures
            r == spec_features(*self),
    {
        Features {
            multi_memory: match self.wasm_multi_memory {
                Some(b) => b,
                None => true,
            },
            multi_value: match self.wasm_multi_value {
                Some(b) => b,
                None => true,
            },
            module_linking: match self.wasm_module_linking {
                Some(b) => b,
                None => false,
            },
            bulk_memory: true,
        }
    }
}

/// The features chosen by a configuration: set options win, the documented
/// defaults fill the rest, and bulk memory is unconditionally on for parsing.
pub open spec fn spec_features(w: Wizer) -> Features {
    Features {
        multi_memory: if w.wasm_multi_memory is Some {
            w.wasm_multi_memory->0
        } else {
            true
        },
        multi_value: if w.wasm_multi_value is Some {
            w.wasm_multi_value->0
        } else {
            true
        },
        module_linking: if w.wasm_module_linking is Some {
            w.wasm_module_linking->0
        } else {
            false
        },
        bulk_memory: true,
    }
}


/// Whether the module exports the initializer under `init` as a function of
/// type `[] -> []`, read from its type, import, function and export
/// sections. A missing section stands for an empty one.
pub open spec fn init_check_spec(ss: Seq<(u8, Seq<u8>)>, init: Seq<u8>) -> Result<(), ErrorKind> {
    let esr: Result<Seq<(Seq<u8>, u8, u32)>, ErrorKind> = (match first_section(ss, 7, 0) {
        None => Ok(Seq::empty()),
        Some(b) => match dec_export_section(b) {
            None => Err(ErrorKind::MalformedInput),
            Some(es) => Ok(es),
        },
    });
    let tsr: Result<Seq<FuncType>, ErrorKind> = (match first_section(ss, 1, 0) {
        None => Ok(Seq::empty()),
        Some(b) => match dec_type_section(b) {
            None => Err(ErrorKind::MalformedInput),
            Some(ts) => Ok(ts),
        },
    });
    let imr: Result<Seq<u32>, ErrorKind> = (match first_section(ss, 2, 0) {
        None => Ok(Seq::empty()),
        Some(b) => match dec_import_section(b) {
            None => Err(ErrorKind::MalformedInput),
            Some(im) => Ok(im),
        },
    });
    let fnr: Result<Seq<u32>, ErrorKind> = (match first_section(ss, 3, 0) {
        None => Ok(Seq::empty()),
        Some(b) => match dec_func_section(b) {
            None => Err(ErrorKind::MalformedInput),
            Some(fs) => Ok(fs),
        },
    });
    if esr is Err {
        Err(esr->Err_0)
    } else if tsr is Err {
        Err(tsr->Err_0)
    } else if imr is Err {
        Err(imr->Err_0)
    } else if fnr is Err {
        Err(fnr->Err_0)
    } else {
        init_func_verdict(esr->Ok_0, arity_table(tsr->Ok_0, imr->Ok_0, fnr->Ok_0), init)
    }
}

/// Check the initializer export of a parsed module, as `init_check_spec`
/// describes.
fn init_check(secs: &Vec<crate::sections::RawSection>, init: &[u8]) -> (r: Result<(), ErrorKind>)
    ensures
        r == init_check_spec(sections_view(secs@), init@),
{
    let es = match crate::instrument::find_first_section(secs, 7) {
        None => Vec::new(),
        Some(t) => match decode_exports(secs[t].body.as_slice()) {
            None => {
                return Err(ErrorKind::MalformedInput);
            },
            Some(x) => x,
        },
    };
    let ts = match crate::instrument::find_first_section(secs, 1) {
        None => Vec::new(),
        Some(t) => match decode_types(secs[t].body.as_slice()) {
            None => {
                return Err(ErrorKind::MalformedInput);
            },
            Some(x) => x,
        },
    };
    let im = match crate::instrument::find_first_section(secs, 2) {
        None => Vec::new(),
        Some(t) => match decode_import_funcs(secs[t].body.as_slice()) {
            None => {
                return Err(ErrorKind::MalformedInput);
            },
            Some(x) => x,
        },
    };
    let fs = match crate::instrument::find_first_section(secs, 3) {
        None => Vec::new(),
        Some(t) => match decode_func_indices(secs[t].body.as_slice()) {
            None => {
                return Err(ErrorKind::MalformedInput);
            },
            Some(x) => x,
        },
    };
    proof {
        assert(crate::parse::exports_view(Seq::<crate::parse::ExportEntry>::empty()) =~= Seq::<
            (Seq<u8>, u8, u32),
        >::empty());
    }
    let arities = build_arity_table(&ts, &im, &fs);
    validate_init_func(&es, &arities, init)
}

/// The pure front of a run, up to the engine: the rename table parsed, the
/// module split into sections, the extra validation pass, and the
/// instrumented module. The external validator's verdict and everything from
/// instantiation on belong to the driver, which walks [`machine`].
pub open spec fn prepare_spec(renames: Seq<Seq<u8>>, wasm: Seq<u8>, f: Features, init: Seq<u8>) -> Result<
    (Seq<u8>, Seq<(Seq<u8>, Seq<u8>)>),
    ErrorKind,
> {
    match parse_renames_spec(renames) {
        Err(e) => Err(e),
        Ok(pairs) => if !accepted_by_validator(wasm, f) {
            Err(ErrorKind::InvalidInput)
        } else if wasm.len() < 8 || wasm.take(8) != header_bytes() || dec_sections(wasm, 8)
            is None {
            Err(ErrorKind::MalformedInput)
        } else {
            let ss = dec_sections(wasm, 8)->Some_0;
            match extra_validation_from(ss, 0) {
                Err(e) => Err(e),
                Ok(_) => match init_check_spec(ss, init) {
                    Err(e) => Err(e),
                    Ok(_) => match instrument_spec(ss) {
                        Err(e) => Err(e),
                        Ok(list) => Ok((crate::sections::enc_module(list), pairs)),
                    },
                },
            }
        },
    }
}

/// The pure back of a run: the output module emitted from the original
/// module, the snapshot, and the rename table.
pub open spec fn finish_spec(
    wasm: Seq<u8>,
    pages: Seq<(u32, Seq<u8>)>,
    vals: Seq<Option<crate::snapshot::GlobalVal>>,
    pairs: Seq<(Seq<u8>, Seq<u8>)>,
    init: Seq<u8>,
) -> Result<Seq<u8>, ErrorKind> {
    if wasm.len() < 8 || wasm.take(8) != header_bytes() || dec_sections(wasm, 8) is None {
        Err(ErrorKind::MalformedInput)
    } else {
        match rewrite_spec(dec_sections(wasm, 8)->Some_0, pages, vals, pairs, init) {
            Err(e) => Err(e),
            Ok(list) => Ok(crate::sections::enc_module(list)),
        }
    }
}

impl Wizer {
    /// Run the stages before the engine: parse the rename table, have the
    /// external validator check the input under the configured features,
    /// split the module, run the extra validation pass, check the
    /// initializer export's presence and type, and emit the instrumented
    /// module, exactly as `prepare_spec` describes. The driver then
    /// instantiates, initializes, snapshots, and hands the snapshot to
    /// [`Wizer::finish`].
    pub fn prepare(&self, wasm: &[u8]) -> (r: Result<(Vec<u8>, FuncRenames), ErrorKind>)
        ensures
            (match r {
                Ok((out, fr)) => prepare_spec(
                    spec_bytes_of(self.func_renames@),
                    wasm@,
                    spec_features(*self),
                    vstd::utf8::encode_utf8(self.init_func@),
                ) matches Ok(p) && out@ == p.0 && fr@ == p.1 && fr.wf(),
                Err(e) => prepare_spec(
                    spec_bytes_of(self.func_renames@),
                    wasm@,
                    spec_features(*self),
                    vstd::utf8::encode_utf8(self.init_func@),
                ) == Err::<(Seq<u8>, Seq<(Seq<u8>, Seq<u8>)>), ErrorKind>(e),
            }),
    {
        let fr = match FuncRenames::parse(&self.func_renames) {
            Err(e) => {
                return Err(e);
            },
            Ok(x) => x,
        };
        let features = self.features();
        if !crate::validate::validator_accepts(wasm, &features) {
            return Err(ErrorKind::InvalidInput);
        }
        let secs = match crate::sections::split_sections(wasm) {
            None => {
                return Err(ErrorKind::MalformedInput);
            },
            Some(x) => x,
        };
        match crate::validate::extra_validation(&secs) {
            Err(e) => {
                return Err(e);
            },
            Ok(_) => {},
        }
        let init = self.init_func.as_str().as_bytes_vec();
        match init_check(&secs, init.as_slice()) {
            Err(e) => {
                return Err(e);
            },
            Ok(_) => {},
        }
        match crate::instrument::instrument_module(&secs) {
            Err(e) => Err(e),
            Ok(out) => Ok((out, fr)),
        }
    }

    /// Run the stage after the engine: emit the output module from the
    /// original bytes, the snapshot, and the rename table, exactly as
    /// `finish_spec` describes.
    pub fn finish(&self, wasm: &[u8], snap: &Snapshot, fr: &FuncRenames) -> (r: Result<
        Vec<u8>,
        ErrorKind,
    >)
        requires
            fr.wf(),
            snap.memories@.len() < 0x1_0000_0000,
            forall|t: int|
                0 <= t < snap.memories@.len() ==> (#[trigger] snap.memories@[t]).data@.len()
                    < 0x1_0000_0000,
        ensures
            (match r {
                Ok(out) => finish_spec(
                    wasm@,
                    crate::rewrite::mems_view(snap.memories@),
                    snap.globals@,
                    fr@,
                    vstd::utf8::encode_utf8(self.init_func@),
                ) matches Ok(b) && out@ == b,
                Err(e) => finish_spec(
                    wasm@,
                    crate::rewrite::mems_view(snap.memories@),
                    snap.globals@,
                    fr@,
                    vstd::utf8::encode_utf8(self.init_func@),
                ) == Err::<Seq<u8>, ErrorKind>(e),
            }),
    {
        let secs = match crate::sections::split_sections(wasm) {
            None => {
                return Err(ErrorKind::MalformedInput);
            },
            Some(x) => x,
        };
        let init = self.init_func.as_str().as_bytes_vec();
        crate::rewrite::rewrite_module(&secs, snap, fr, init.as_slice())
    }
}



/// The whole validation of an input module: the external validator's verdict
/// under the configured features, then the extra validation pass.
pub open spec fn wasm_validate_spec(w: Wizer, wasm: Seq<u8>) -> Result<(), ErrorKind> {
    if !accepted_by_validator(wasm, spec_features(w)) {
        Err(ErrorKind::InvalidInput)
    } else if wasm.len() < 8 || wasm.take(8) != header_bytes() || dec_sections(wasm, 8) is None {
        Err(ErrorKind::MalformedInput)
    } else {
        extra_validation_from(dec_sections(wasm, 8)->Some_0, 0)
    }
}

impl Wizer {
    /// Validate an input module: the external validator under the configured
    /// features, then the extra validation pass that rejects the bulk-memory
    /// table instructions and passive data segments, exactly as
    /// `wasm_validate_spec` describes.
    pub fn wasm_validate(&self, wasm: &[u8]) -> (r: Result<(), ErrorKind>)
        ensures
            r == wasm_validate_spec(*self, wasm@),
    {
        let features = self.features();
        if !crate::validate::validator_accepts(wasm, &features) {
            return Err(ErrorKind::InvalidInput);
        }
        let secs = match crate::sections::split_sections(wasm) {
            None => {
                return Err(ErrorKind::MalformedInput);
            },
            Some(x) => x,
        };
        crate::validate::extra_validation(&secs)
    }
}


} // verus!
