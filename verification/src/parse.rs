//! Decoding the entries of the sections the later passes need: types,
//! imports, functions, memories, globals, exports and start. The input has
//! already passed the external validator, so anything that fails to decode is
//! malformed input, not a user error.

use crate::leb::{dec_u32, lemma_dec_uleb_bounds, read_u32};
use crate::sections::bytes_range;
use crate::validate::{const_expr_end, const_expr_end_exec, lemma_const_expr_end_bounds};
use crate::ErrorKind;
use vstd::prelude::*;

verus! {

/// One function type, reduced to what the passes need: its arity.
#[derive(Clone, Copy, PartialEq, Eq, Structural, Debug)]
pub struct FuncType {
    /// How many parameters it takes.
    pub params: u32,
    /// How many results it returns.
    pub results: u32,
}

/// One import, reduced to its kind (0 function, 1 table, 2 memory, 3 global)
/// and, for a function, its type index.
#[derive(Clone, Copy, PartialEq, Eq, Structural, Debug)]
pub struct ImportEntry {
    /// The import description's kind byte.
    pub kind: u8,
    /// The type index, for a function import; `0` otherwise.
    pub type_index: u32,
}

/// One memory's limits.
#[derive(Clone, Copy, PartialEq, Eq, Structural, Debug)]
pub struct MemEntry {
    /// Whether a maximum is declared.
    pub has_max: bool,
    /// The initial size, in pages.
    pub min: u32,
    /// The declared maximum, in pages; `0` when absent.
    pub max: u32,
}

/// One defined global: its value type byte, mutability, and initializer
/// expression bytes (including the terminating `end`).
pub struct GlobalEntry {
    /// The value type byte: `0x7f` i32, `0x7e` i64, `0x7d` f32, `0x7c` f64.
    pub valtype: u8,
    /// Whether the global is mutable.
    pub mutable: bool,
    /// The initializer expression's bytes.
    pub init: Vec<u8>,
}

impl View for GlobalEntry {
    type V = (u8, bool, Seq<u8>);

    open spec fn view(&self) -> (u8, bool, Seq<u8>) {
        (self.valtype, self.mutable, self.init@)
    }
}

/// One export: its name bytes, kind byte (0 function, 1 table, 2 memory, 3
/// global) and index.
pub struct ExportEntry {
    /// The export name, as bytes.
    pub name: Vec<u8>,
    /// The export kind byte.
    pub kind: u8,
    /// The exported item's index in its index space.
    pub index: u32,
}

impl View for ExportEntry {
    type V = (Seq<u8>, u8, u32);

    open spec fn view(&self) -> (Seq<u8>, u8, u32) {
        (self.name@, self.kind, self.index)
    }
}

/// The view of an export list.
pub open spec fn exports_view(v: Seq<ExportEntry>) -> Seq<(Seq<u8>, u8, u32)> {
    v.map_values(|e: ExportEntry| e@)
}

/// Decode one export at `pos`: a length-prefixed name, a kind byte at most 3,
/// and an index.
pub open spec fn dec_export_at(s: Seq<u8>, pos: int) -> Option<((Seq<u8>, u8, u32), int)> {
    match dec_u32(s, pos) {
        None => None,
        Some((nlen, p)) => if p + nlen + 1 <= s.len() {
            let name = s.subrange(p, p + nlen);
            let kind = s[p + nlen];
            if kind <= 3 {
                match dec_u32(s, p + nlen + 1) {
                    None => None,
                    Some((idx, p2)) => Some(((name, kind, idx), p2)),
                }
            } else {
                None
            }
        } else {
            None
        },
    }
}

/// Decode the first `n` exports, accumulating in order.
pub open spec fn dec_exports(s: Seq<u8>, pos: int, n: nat) -> Option<
    (Seq<(Seq<u8>, u8, u32)>, int),
>
    decreases n,
{
    if n == 0 {
        Some((Seq::empty(), pos))
    } else {
        match dec_exports(s, pos, (n - 1) as nat) {
            None => None,
            Some((pre, p)) => match dec_export_at(s, p) {
                None => None,
                Some((e, p2)) => Some((pre.push(e), p2)),
            },
        }
    }
}

/// Once a prefix of the exports fails to decode, any longer prefix fails.
pub proof fn lemma_dec_exports_none(s: Seq<u8>, pos: int, m: nat, n: nat)
    requires
        m <= n,
        dec_exports(s, pos, m) is None,
    ensures
        dec_exports(s, pos, n) is None,
    decreases n,
{
    if n > m {
        lemma_dec_exports_none(s, pos, m, (n - 1) as nat);
    }
}

/// An export section's entries: the count, then the exports, filling the body
/// exactly.
pub open spec fn dec_export_section(body: Seq<u8>) -> Option<Seq<(Seq<u8>, u8, u32)>> {
    match dec_u32(body, 0) {
        None => None,
        Some((count, p)) => match dec_exports(body, p, count as nat) {
            None => None,
            Some((es, end)) => if end == body.len() {
                Some(es)
            } else {
                None
            },
        },
    }
}

/// Decode an export section's body, as `dec_export_section` describes.
pub fn decode_exports(body: &[u8]) -> (r: Option<Vec<ExportEntry>>)
    ensures
        (match r {
            Some(es) => dec_export_section(body@) == Some(exports_view(es@)),
            None => dec_export_section(body@) is None,
        }),
{
    let (count, p) = match read_u32(body, 0) {
        None => {
            return None;
        },
        Some(x) => x,
    };
    proof {
        lemma_dec_uleb_bounds(body@, 0, 5);
    }
    let mut out: Vec<ExportEntry> = Vec::new();
    let mut cur = p;
    let mut i: u32 = 0;
    proof {
        assert(exports_view(out@) =~= Seq::<(Seq<u8>, u8, u32)>::empty());
    }
    while i < count
        invariant
            i <= count,
            cur as int <= body@.len(),
            dec_u32(body@, 0) == Some((count, p as int)),
            dec_exports(body@, p as int, i as nat) == Some((exports_view(out@), cur as int)),
        decreases count - i,
    {
        let ghost prev = exports_view(out@);
        proof {
            assert(dec_exports(body@, p as int, (i + 1) as nat) == (match dec_export_at(
                body@,
                cur as int,
            ) {
                None => None::<(Seq<(Seq<u8>, u8, u32)>, int)>,
                Some((e, p2)) => Some((prev.push(e), p2)),
            }));
            if dec_export_at(body@, cur as int) is None {
                lemma_dec_exports_none(body@, p as int, (i + 1) as nat, count as nat);
            }
        }
        let (nlen, q) = match read_u32(body, cur) {
            None => {
                return None;
            },
            Some(x) => x,
        };
        proof {
            lemma_dec_uleb_bounds(body@, cur as int, 5);
        }
        if nlen as usize > body.len() - q || q + nlen as usize >= body.len() {
            return None;
        }
        let name_end = q + nlen as usize;
        let name = bytes_range(body, q, name_end);
        let kind = body[name_end];
        if kind > 3 {
            return None;
        }
        let (idx, p2) = match read_u32(body, name_end + 1) {
            None => {
                return None;
            },
            Some(x) => x,
        };
        proof {
            lemma_dec_uleb_bounds(body@, name_end as int + 1, 5);
        }
        out.push(ExportEntry { name, kind, index: idx });
        proof {
            assert(exports_view(out@) =~= prev.push(
                (body@.subrange(q as int, name_end as int), kind, idx),
            ));
        }
        cur = p2;
        i += 1;
    }
    if cur != body.len() {
        return None;
    }
    Some(out)
}

/// Decode one memory's limits at `pos`: a flags byte `0` (minimum only) or
/// `1` (minimum and maximum), then the sizes.
pub open spec fn dec_limits_at(s: Seq<u8>, pos: int) -> Option<(MemEntry, int)> {
    if !(0 <= pos < s.len()) {
        None
    } else if s[pos] == 0 {
        match dec_u32(s, pos + 1) {
            None => None,
            Some((min, p)) => Some((MemEntry { has_max: false, min, max: 0u32 }, p)),
        }
    } else if s[pos] == 1 {
        match dec_u32(s, pos + 1) {
            None => None,
            Some((min, p)) => match dec_u32(s, p) {
                None => None,
                Some((max, p2)) => Some((MemEntry { has_max: true, min, max }, p2)),
            },
        }
    } else {
        None
    }
}

/// Decode the first `n` memory entries.
pub open spec fn dec_memories(s: Seq<u8>, pos: int, n: nat) -> Option<(Seq<MemEntry>, int)>
    decreases n,
{
    if n == 0 {
        Some((Seq::empty(), pos))
    } else {
        match dec_memories(s, pos, (n - 1) as nat) {
            None => None,
            Some((pre, p)) => match dec_limits_at(s, p) {
                None => None,
                Some((m, p2)) => Some((pre.push(m), p2)),
            },
        }
    }
}

/// Once a prefix of the memory entries fails to decode, any longer prefix
/// fails.
pub proof fn lemma_dec_memories_none(s: Seq<u8>, pos: int, m: nat, n: nat)
    requires
        m <= n,
        dec_memories(s, pos, m) is None,
    ensures
        dec_memories(s, pos, n) is None,
    decreases n,
{
    if n > m {
        lemma_dec_memories_none(s, pos, m, (n - 1) as nat);
    }
}

/// A memory section's entries, filling the body exactly.
pub open spec fn dec_memory_section(body: Seq<u8>) -> Option<Seq<MemEntry>> {
    match dec_u32(body, 0) {
        None => None,
        Some((count, p)) => match dec_memories(body, p, count as nat) {
            None => None,
            Some((ms, end)) => if end == body.len() {
                Some(ms)
            } else {
                None
            },
        },
    }
}

/// Decode a memory section's body, as `dec_memory_section` describes.
pub fn decode_memories(body: &[u8]) -> (r: Option<Vec<MemEntry>>)
    ensures
        (match r {
            Some(ms) => dec_memory_section(body@) == Some(ms@),
            None => dec_memory_section(body@) is None,
        }),
{
    let (count, p) = match read_u32(body, 0) {
        None => {
            return None;
        },
        Some(x) => x,
    };
    proof {
        lemma_dec_uleb_bounds(body@, 0, 5);
    }
    let mut out: Vec<MemEntry> = Vec::new();
    let mut cur = p;
    let mut i: u32 = 0;
    proof {
        assert(out@ =~= Seq::<MemEntry>::empty());
    }
    while i < count
        invariant
            i <= count,
            cur as int <= body@.len(),
            dec_u32(body@, 0) == Some((count, p as int)),
            dec_memories(body@, p as int, i as nat) == Some((out@, cur as int)),
        decreases count - i,
    {
        let ghost prev = out@;
        proof {
            assert(dec_memories(body@, p as int, (i + 1) as nat) == (match dec_limits_at(
                body@,
                cur as int,
            ) {
                None => None::<(Seq<MemEntry>, int)>,
                Some((m, p2)) => Some((prev.push(m), p2)),
            }));
            if dec_limits_at(body@, cur as int) is None {
                lemma_dec_memories_none(body@, p as int, (i + 1) as nat, count as nat);
            }
        }
        if cur >= body.len() {
            return None;
        }
        let flags = body[cur];
        if flags > 1 {
            return None;
        }
        let (min, q) = match read_u32(body, cur + 1) {
            None => {
                return None;
            },
            Some(x) => x,
        };
        proof {
            lemma_dec_uleb_bounds(body@, cur as int + 1, 5);
        }
        if flags == 0 {
            out.push(MemEntry { has_max: false, min, max: 0 });
            cur = q;
        } else {
            let (max, q2) = match read_u32(body, q) {
                None => {
                    return None;
                },
                Some(x) => x,
            };
            proof {
                lemma_dec_uleb_bounds(body@, q as int, 5);
            }
            out.push(MemEntry { has_max: true, min, max });
            cur = q2;
        }
        proof {
            assert(out@ =~= prev.push(out@.last()));
        }
        i += 1;
    }
    if cur != body.len() {
        return None;
    }
    Some(out)
}

/// Decode one global at `pos`: a value type byte of the four numeric types, a
/// mutability byte, and the initializer expression.
pub open spec fn dec_global_at(s: Seq<u8>, pos: int) -> Option<((u8, bool, Seq<u8>), int)> {
    if !(0 <= pos && pos + 2 <= s.len()) {
        None
    } else {
        let vt = s[pos];
        let mt = s[pos + 1];
        if (vt == 0x7f || vt == 0x7e || vt == 0x7d || vt == 0x7c) && mt <= 1 {
            match const_expr_end(s, pos + 2) {
                None => None,
                Some(e) => Some(((vt, mt == 1, s.subrange(pos + 2, e)), e)),
            }
        } else {
            None
        }
    }
}

/// Decode the first `n` globals.
pub open spec fn dec_globals(s: Seq<u8>, pos: int, n: nat) -> Option<
    (Seq<(u8, bool, Seq<u8>)>, int),
>
    decreases n,
{
    if n == 0 {
        Some((Seq::empty(), pos))
    } else {
        match dec_globals(s, pos, (n - 1) as nat) {
            None => None,
            Some((pre, p)) => match dec_global_at(s, p) {
                None => None,
                Some((g, p2)) => Some((pre.push(g), p2)),
            },
        }
    }
}

/// Once a prefix of the globals fails to decode, any longer prefix fails.
pub proof fn lemma_dec_globals_none(s: Seq<u8>, pos: int, m: nat, n: nat)
    requires
        m <= n,
        dec_globals(s, pos, m) is None,
    ensures
        dec_globals(s, pos, n) is None,
    decreases n,
{
    if n > m {
        lemma_dec_globals_none(s, pos, m, (n - 1) as nat);
    }
}

/// The view of a global list.
pub open spec fn globals_view(v: Seq<GlobalEntry>) -> Seq<(u8, bool, Seq<u8>)> {
    v.map_values(|g: GlobalEntry| g@)
}

/// A global section's entries, filling the body exactly.
pub open spec fn dec_global_section(body: Seq<u8>) -> Option<Seq<(u8, bool, Seq<u8>)>> {
    match dec_u32(body, 0) {
        None => None,
        Some((count, p)) => match dec_globals(body, p, count as nat) {
            None => None,
            Some((gs, end)) => if end == body.len() {
                Some(gs)
            } else {
                None
            },
        },
    }
}

/// Decode a global section's body, as `dec_global_section` describes.
pub fn decode_globals(body: &[u8]) -> (r: Option<Vec<GlobalEntry>>)
    ensures
        (match r {
            Some(gs) => dec_global_section(body@) == Some(globals_view(gs@)),
            None => dec_global_section(body@) is None,
        }),
{
    let (count, p) = match read_u32(body, 0) {
        None => {
            return None;
        },
        Some(x) => x,
    };
    proof {
        lemma_dec_uleb_bounds(body@, 0, 5);
    }
    let mut out: Vec<GlobalEntry> = Vec::new();
    let mut cur = p;
    let mut i: u32 = 0;
    proof {
        assert(globals_view(out@) =~= Seq::<(u8, bool, Seq<u8>)>::empty());
    }
    while i < count
        invariant
            i <= count,
            cur as int <= body@.len(),
            dec_u32(body@, 0) == Some((count, p as int)),
            dec_globals(body@, p as int, i as nat) == Some((globals_view(out@), cur as int)),
        decreases count - i,
    {
        let ghost prev = globals_view(out@);
        proof {
            assert(dec_globals(body@, p as int, (i + 1) as nat) == (match dec_global_at(
                body@,
                cur as int,
            ) {
                None => None::<(Seq<(u8, bool, Seq<u8>)>, int)>,
                Some((g, p2)) => Some((prev.push(g), p2)),
            }));
            if dec_global_at(body@, cur as int) is None {
                lemma_dec_globals_none(body@, p as int, (i + 1) as nat, count as nat);
            }
        }
        if body.len() - cur < 2 {
            return None;
        }
        let vt = body[cur];
        let mt = body[cur + 1];
        if !((vt == 0x7f || vt == 0x7e || vt == 0x7d || vt == 0x7c) && mt <= 1) {
            return None;
        }
        let e = match const_expr_end_exec(body, cur + 2) {
            None => {
                return None;
            },
            Some(x) => x,
        };
        proof {
            lemma_const_expr_end_bounds(body@, cur as int + 2);
        }
        let init = bytes_range(body, cur + 2, e);
        out.push(GlobalEntry { valtype: vt, mutable: mt == 1, init });
        proof {
            assert(globals_view(out@) =~= prev.push(
                (vt, mt == 1, body@.subrange(cur as int + 2, e as int)),
            ));
        }
        cur = e;
        i += 1;
    }
    if cur != body.len() {
        return None;
    }
    Some(out)
}

/// The index of the first export with this name, searching from `i`.
pub open spec fn find_export(es: Seq<(Seq<u8>, u8, u32)>, name: Seq<u8>, i: int) -> Option<int>
    decreases es.len() - i,
    when 0 <= i
{
    if i >= es.len() {
        None
    } else if es[i].0 == name {
        Some(i)
    } else {
        find_export(es, name, i + 1)
    }
}

/// Whether the initialization export is present, a function, and of type
/// `[] -> []`, given the export list and a resolver from function index to
/// arity. `func_arity[f]` is the type of function `f` across the whole
/// function index space, imports first; `None` marks an index that cannot be
/// resolved (malformed input).
pub open spec fn init_func_verdict(
    es: Seq<(Seq<u8>, u8, u32)>,
    arities: Seq<Option<FuncType>>,
    name: Seq<u8>,
) -> Result<(), ErrorKind> {
    match find_export(es, name, 0) {
        None => Err(ErrorKind::BadInitFunc),
        Some(i) => {
            let e = es[i];
            if e.1 != 0 {
                Err(ErrorKind::BadInitFunc)
            } else if !(e.2 < arities.len()) {
                Err(ErrorKind::MalformedInput)
            } else {
                match arities[e.2 as int] {
                    None => Err(ErrorKind::MalformedInput),
                    Some(t) => if t.params == 0 && t.results == 0 {
                        Ok(())
                    } else {
                        Err(ErrorKind::BadInitFunc)
                    },
                }
            }
        },
    }
}

/// Check that the module exports the initialization function under `name`,
/// that the export is a function, and that its type is `[] -> []`, exactly as
/// `init_func_verdict` describes. `arities[f]` gives the arity of function
/// `f` over the whole function index space, imports first.
pub fn validate_init_func(
    es: &Vec<ExportEntry>,
    arities: &Vec<Option<FuncType>>,
    name: &[u8],
) -> (r: Result<(), ErrorKind>)
    ensures
        r == init_func_verdict(exports_view(es@), arities@, name@),
{
    let ghost esv = exports_view(es@);
    let mut i: usize = 0;
    while i < es.len()
        invariant
            i <= es@.len(),
            esv == exports_view(es@),
            esv.len() == es@.len(),
            find_export(esv, name@, 0) == find_export(esv, name@, i as int),
        decreases es@.len() - i,
    {
        proof {
            assert(esv[i as int] == (es@[i as int].name@, es@[i as int].kind, es@[i as int].index));
        }
        if crate::sections::bytes_eq(es[i].name.as_slice(), name) {
            let e = &es[i];
            if e.kind != 0 {
                return Err(ErrorKind::BadInitFunc);
            }
            if !((e.index as usize) < arities.len()) {
                return Err(ErrorKind::MalformedInput);
            }
            match arities[e.index as usize] {
                None => {
                    return Err(ErrorKind::MalformedInput);
                },
                Some(t) => {
                    if t.params == 0 && t.results == 0 {
                        return Ok(());
                    } else {
                        return Err(ErrorKind::BadInitFunc);
                    }
                },
            }
        }
        i += 1;
    }
    Err(ErrorKind::BadInitFunc)
}


/// Decode one function type at `pos`: the `0x60` tag, then the parameter and
/// result value-type vectors, whose lengths are all the passes need.
pub open spec fn dec_type_at(s: Seq<u8>, pos: int) -> Option<(FuncType, int)> {
    if !(0 <= pos < s.len()) {
        None
    } else if s[pos] != 0x60 {
        None
    } else {
        match dec_u32(s, pos + 1) {
            None => None,
            Some((pl, p)) => if p + pl <= s.len() {
                match dec_u32(s, p + pl) {
                    None => None,
                    Some((rl, p2)) => if p2 + rl <= s.len() {
                        Some((FuncType { params: pl, results: rl }, p2 + rl))
                    } else {
                        None
                    },
                }
            } else {
                None
            },
        }
    }
}

/// Decode the first `n` function types.
pub open spec fn dec_types(s: Seq<u8>, pos: int, n: nat) -> Option<(Seq<FuncType>, int)>
    decreases n,
{
    if n == 0 {
        Some((Seq::empty(), pos))
    } else {
        match dec_types(s, pos, (n - 1) as nat) {
            None => None,
            Some((pre, p)) => match dec_type_at(s, p) {
                None => None,
                Some((t, p2)) => Some((pre.push(t), p2)),
            },
        }
    }
}

/// Once a prefix of the types fails to decode, any longer prefix fails.
pub proof fn lemma_dec_types_none(s: Seq<u8>, pos: int, m: nat, n: nat)
    requires
        m <= n,
        dec_types(s, pos, m) is None,
    ensures
        dec_types(s, pos, n) is None,
    decreases n,
{
    if n > m {
        lemma_dec_types_none(s, pos, m, (n - 1) as nat);
    }
}

/// A type section's entries, filling the body exactly.
pub open spec fn dec_type_section(body: Seq<u8>) -> Option<Seq<FuncType>> {
    match dec_u32(body, 0) {
        None => None,
        Some((count, p)) => match dec_types(body, p, count as nat) {
            None => None,
            Some((ts, end)) => if end == body.len() {
                Some(ts)
            } else {
                None
            },
        },
    }
}

/// Decode a type section's body, as `dec_type_section` describes.
pub fn decode_types(body: &[u8]) -> (r: Option<Vec<FuncType>>)
    ensures
        (match r {
            Some(ts) => dec_type_section(body@) == Some(ts@),
            None => dec_type_section(body@) is None,
        }),
{
    let (count, p) = match read_u32(body, 0) {
        None => {
            return None;
        },
        Some(x) => x,
    };
    proof {
        lemma_dec_uleb_bounds(body@, 0, 5);
    }
    let mut out: Vec<FuncType> = Vec::new();
    let mut cur = p;
    let mut i: u32 = 0;
    proof {
        assert(out@ =~= Seq::<FuncType>::empty());
    }
    while i < count
        invariant
            i <= count,
            cur as int <= body@.len(),
            dec_u32(body@, 0) == Some((count, p as int)),
            dec_types(body@, p as int, i as nat) == Some((out@, cur as int)),
        decreases count - i,
    {
        let ghost prev = out@;
        proof {
            assert(dec_types(body@, p as int, (i + 1) as nat) == (match dec_type_at(
                body@,
                cur as int,
            ) {
                None => None::<(Seq<FuncType>, int)>,
                Some((t, p2)) => Some((prev.push(t), p2)),
            }));
            if dec_type_at(body@, cur as int) is None {
                lemma_dec_types_none(body@, p as int, (i + 1) as nat, count as nat);
            }
        }
        if cur >= body.len() {
            return None;
        }
        if body[cur] != 0x60 {
            return None;
        }
        let (pl, q) = match read_u32(body, cur + 1) {
            None => {
                return None;
            },
            Some(x) => x,
        };
        proof {
            lemma_dec_uleb_bounds(body@, cur as int + 1, 5);
        }
        if pl as usize > body.len() - q {
            return None;
        }
        let (rl, q2) = match read_u32(body, q + pl as usize) {
            None => {
                return None;
            },
            Some(x) => x,
        };
        proof {
            lemma_dec_uleb_bounds(body@, q as int + pl as int, 5);
        }
        if rl as usize > body.len() - q2 {
            return None;
        }
        out.push(FuncType { params: pl, results: rl });
        proof {
            assert(out@ =~= prev.push(FuncType { params: pl, results: rl }));
        }
        cur = q2 + rl as usize;
        i += 1;
    }
    if cur != body.len() {
        return None;
    }
    Some(out)
}

/// Decode one import's function type index at `pos`: two length-prefixed
/// names and a description that must be a function (`0x00`); the passes run
/// only after the extra validation pass has refused every other import kind.
pub open spec fn dec_import_func_at(s: Seq<u8>, pos: int) -> Option<(u32, int)> {
    match dec_u32(s, pos) {
        None => None,
        Some((mlen, p)) => if p + mlen <= s.len() {
            match dec_u32(s, p + mlen) {
                None => None,
                Some((flen, p2)) => if p2 + flen < s.len() && s[p2 + flen] == 0 {
                    dec_u32(s, p2 + flen + 1)
                } else {
                    None
                },
            }
        } else {
            None
        },
    }
}

/// Decode the first `n` imports' function type indices.
pub open spec fn dec_import_funcs(s: Seq<u8>, pos: int, n: nat) -> Option<(Seq<u32>, int)>
    decreases n,
{
    if n == 0 {
        Some((Seq::empty(), pos))
    } else {
        match dec_import_funcs(s, pos, (n - 1) as nat) {
            None => None,
            Some((pre, p)) => match dec_import_func_at(s, p) {
                None => None,
                Some((t, p2)) => Some((pre.push(t), p2)),
            },
        }
    }
}

/// Once a prefix of the imports fails to decode, any longer prefix fails.
pub proof fn lemma_dec_import_funcs_none(s: Seq<u8>, pos: int, m: nat, n: nat)
    requires
        m <= n,
        dec_import_funcs(s, pos, m) is None,
    ensures
        dec_import_funcs(s, pos, n) is None,
    decreases n,
{
    if n > m {
        lemma_dec_import_funcs_none(s, pos, m, (n - 1) as nat);
    }
}

/// An import section's function type indices, filling the body exactly.
pub open spec fn dec_import_section(body: Seq<u8>) -> Option<Seq<u32>> {
    match dec_u32(body, 0) {
        None => None,
        Some((count, p)) => match dec_import_funcs(body, p, count as nat) {
            None => None,
            Some((ts, end)) => if end == body.len() {
                Some(ts)
            } else {
                None
            },
        },
    }
}

/// Decode an import section's body, as `dec_import_section` describes.
pub fn decode_import_funcs(body: &[u8]) -> (r: Option<Vec<u32>>)
    ensures
        (match r {
            Some(ts) => dec_import_section(body@) == Some(ts@),
            None => dec_import_section(body@) is None,
        }),
{
    let (count, p) = match read_u32(body, 0) {
        None => {
            return None;
        },
        Some(x) => x,
    };
    proof {
        lemma_dec_uleb_bounds(body@, 0, 5);
    }
    let mut out: Vec<u32> = Vec::new();
    let mut cur = p;
    let mut i: u32 = 0;
    proof {
        assert(out@ =~= Seq::<u32>::empty());
    }
    while i < count
        invariant
            i <= count,
            cur as int <= body@.len(),
            dec_u32(body@, 0) == Some((count, p as int)),
            dec_import_funcs(body@, p as int, i as nat) == Some((out@, cur as int)),
        decreases count - i,
    {
        let ghost prev = out@;
        proof {
            assert(dec_import_funcs(body@, p as int, (i + 1) as nat) == (match dec_import_func_at(
                body@,
                cur as int,
            ) {
                None => None::<(Seq<u32>, int)>,
                Some((t, p2)) => Some((prev.push(t), p2)),
            }));
            if dec_import_func_at(body@, cur as int) is None {
                lemma_dec_import_funcs_none(body@, p as int, (i + 1) as nat, count as nat);
            }
        }
        let (mlen, q) = match read_u32(body, cur) {
            None => {
                return None;
            },
            Some(x) => x,
        };
        proof {
            lemma_dec_uleb_bounds(body@, cur as int, 5);
        }
        if mlen as usize > body.len() - q {
            return None;
        }
        let (flen, q2) = match read_u32(body, q + mlen as usize) {
            None => {
                return None;
            },
            Some(x) => x,
        };
        proof {
            lemma_dec_uleb_bounds(body@, q as int + mlen as int, 5);
        }
        if flen as usize >= body.len() - q2 {
            return None;
        }
        let dpos = q2 + flen as usize;
        if body[dpos] != 0 {
            return None;
        }
        let (ti, q3) = match read_u32(body, dpos + 1) {
            None => {
                return None;
            },
            Some(x) => x,
        };
        proof {
            lemma_dec_uleb_bounds(body@, dpos as int + 1, 5);
        }
        out.push(ti);
        proof {
            assert(out@ =~= prev.push(ti));
        }
        cur = q3;
        i += 1;
    }
    if cur != body.len() {
        return None;
    }
    Some(out)
}

/// Decode the first `n` type indices of a function section.
pub open spec fn dec_func_indices(s: Seq<u8>, pos: int, n: nat) -> Option<(Seq<u32>, int)>
    decreases n,
{
    if n == 0 {
        Some((Seq::empty(), pos))
    } else {
        match dec_func_indices(s, pos, (n - 1) as nat) {
            None => None,
            Some((pre, p)) => match dec_u32(s, p) {
                None => None,
                Some((t, p2)) => Some((pre.push(t), p2)),
            },
        }
    }
}

/// Once a prefix of the indices fails to decode, any longer prefix fails.
pub proof fn lemma_dec_func_indices_none(s: Seq<u8>, pos: int, m: nat, n: nat)
    requires
        m <= n,
        dec_func_indices(s, pos, m) is None,
    ensures
        dec_func_indices(s, pos, n) is None,
    decreases n,
{
    if n > m {
        lemma_dec_func_indices_none(s, pos, m, (n - 1) as nat);
    }
}

/// A function section's type indices, filling the body exactly.
pub open spec fn dec_func_section(body: Seq<u8>) -> Option<Seq<u32>> {
    match dec_u32(body, 0) {
        None => None,
        Some((count, p)) => match dec_func_indices(body, p, count as nat) {
            None => None,
            Some((ts, end)) => if end == body.len() {
                Some(ts)
            } else {
                None
            },
        },
    }
}

/// Decode a function section's body, as `dec_func_section` describes.
pub fn decode_func_indices(body: &[u8]) -> (r: Option<Vec<u32>>)
    ensures
        (match r {
            Some(ts) => dec_func_section(body@) == Some(ts@),
            None => dec_func_section(body@) is None,
        }),
{
    let (count, p) = match read_u32(body, 0) {
        None => {
            return None;
        },
        Some(x) => x,
    };
    proof {
        lemma_dec_uleb_bounds(body@, 0, 5);
    }
    let mut out: Vec<u32> = Vec::new();
    let mut cur = p;
    let mut i: u32 = 0;
    proof {
        assert(out@ =~= Seq::<u32>::empty());
    }
    while i < count
        invariant
            i <= count,
            cur as int <= body@.len(),
            dec_u32(body@, 0) == Some((count, p as int)),
            dec_func_indices(body@, p as int, i as nat) == Some((out@, cur as int)),
        decreases count - i,
    {
        let ghost prev = out@;
        proof {
            assert(dec_func_indices(body@, p as int, (i + 1) as nat) == (match dec_u32(
                body@,
                cur as int,
            ) {
                None => None::<(Seq<u32>, int)>,
                Some((t, p2)) => Some((prev.push(t), p2)),
            }));
            if dec_u32(body@, cur as int) is None {
                lemma_dec_func_indices_none(body@, p as int, (i + 1) as nat, count as nat);
            }
        }
        let (ti, q) = match read_u32(body, cur) {
            None => {
                return None;
            },
            Some(x) => x,
        };
        proof {
            lemma_dec_uleb_bounds(body@, cur as int, 5);
        }
        out.push(ti);
        proof {
            assert(out@ =~= prev.push(ti));
        }
        cur = q;
        i += 1;
    }
    if cur != body.len() {
        return None;
    }
    Some(out)
}

/// The arity of every function in the index space, imports first, resolved
/// through the type section; `None` marks a type index out of range.
pub open spec fn arity_table(
    types: Seq<FuncType>,
    imports: Seq<u32>,
    funcs: Seq<u32>,
) -> Seq<Option<FuncType>> {
    (imports + funcs).map_values(
        |t: u32|
            if t < types.len() {
                Some(types[t as int])
            } else {
                None
            },
    )
}

/// Build the arity table, as `arity_table` describes.
pub fn build_arity_table(
    types: &Vec<FuncType>,
    imports: &Vec<u32>,
    funcs: &Vec<u32>,
) -> (r: Vec<Option<FuncType>>)
    ensures
        r@ == arity_table(types@, imports@, funcs@),
{
    let ghost all = imports@ + funcs@;
    let mut out: Vec<Option<FuncType>> = Vec::new();
    let mut i: usize = 0;
    proof {
        assert(out@ =~= arity_table(types@, imports@, funcs@).take(0));
    }
    while i < imports.len()
        invariant
            i <= imports@.len(),
            all == imports@ + funcs@,
            out@ == arity_table(types@, imports@, funcs@).take(i as int),
        decreases imports@.len() - i,
    {
        proof {
            assert(all[i as int] == imports@[i as int]);
        }
        let t = imports[i];
        if (t as usize) < types.len() {
            out.push(Some(types[t as usize]));
        } else {
            out.push(None);
        }
        proof {
            assert(out@ =~= arity_table(types@, imports@, funcs@).take(i as int + 1));
        }
        i += 1;
    }
    let mut k: usize = 0;
    while k < funcs.len()
        invariant
            i == imports@.len(),
            k <= funcs@.len(),
            all == imports@ + funcs@,
            out@ == arity_table(types@, imports@, funcs@).take(i + k),
        decreases funcs@.len() - k,
    {
        proof {
            assert(all[i + k] == funcs@[k as int]);
        }
        let t = funcs[k];
        if (t as usize) < types.len() {
            out.push(Some(types[t as usize]));
        } else {
            out.push(None);
        }
        proof {
            assert(out@ =~= arity_table(types@, imports@, funcs@).take(i + k + 1));
        }
        k += 1;
    }
    proof {
        assert(arity_table(types@, imports@, funcs@).take(i + k) =~= arity_table(
            types@,
            imports@,
            funcs@,
        ));
    }
    out
}


} // verus!
