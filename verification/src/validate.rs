//! The extra validation pass. The external validator checks the module
//! against the WebAssembly specification; this pass additionally rejects the
//! bulk-memory instructions that mutate state the snapshot cannot capture
//! (`table.copy`, `table.init`, `elem.drop`, `data.drop`) and passive data
//! segments. Bulk memory must be enabled while parsing — the binary format is
//! ambiguous about data segments without it — so the restriction is enforced
//! here instead.

use crate::leb::{dec_u32, leb_end, lemma_dec_uleb_bounds, read_u32, skip_leb};
use crate::sections::{sections_view, RawSection};
use crate::ErrorKind;
use crate::Features;
use vstd::prelude::*;

verus! {

/// What a scan of one section found.
#[derive(Clone, Copy, PartialEq, Eq, Structural, Debug)]
pub enum Verdict {
    /// Nothing outside the supported profile.
    Clean,
    /// A blocked instruction, or a passive data segment.
    Blocked,
    /// Bytes that do not decode under the supported profile.
    Bad,
}

/// One step of the instruction scan.
pub enum OpStep {
    /// The next instruction starts here.
    Adv(int),
    /// The instruction is one of the four blocked bulk-memory instructions.
    Hit,
    /// The opcode is outside the supported profile or its immediates overrun.
    Bad,
}

/// The position after `n` consecutive LEB128 integers.
pub open spec fn skip_lebs(s: Seq<u8>, pos: int, n: nat, max: int) -> Option<int>
    decreases n,
{
    if n == 0 {
        Some(pos)
    } else {
        match leb_end(s, pos, max) {
            None => None,
            Some(p) => skip_lebs(s, p, (n - 1) as nat, max),
        }
    }
}

/// Skipping LEB128 integers stays inside the bytes.
pub proof fn lemma_skip_lebs_bounds(s: Seq<u8>, pos: int, n: nat, max: int)
    requires
        0 <= pos <= s.len(),
    ensures
        skip_lebs(s, pos, n, max) matches Some(p) ==> pos <= p <= s.len(),
    decreases n,
{
    if n > 0 {
        lemma_dec_uleb_bounds(s, pos, max);
        match leb_end(s, pos, max) {
            None => {},
            Some(p) => {
                lemma_skip_lebs_bounds(s, p, (n - 1) as nat, max);
            },
        }
    }
}

/// Classify the instruction at `pos` and find where the next one starts.
/// Opcodes of proposals outside the supported profile (reference types, SIMD,
/// threads, exceptions) do not decode.
pub open spec fn op_step(s: Seq<u8>, pos: int) -> OpStep {
    if !(0 <= pos < s.len()) {
        OpStep::Bad
    } else {
        let op = s[pos];
        if op == 0x00 || op == 0x01 || op == 0x05 || op == 0x0b || op == 0x0f || op == 0x1a || op
            == 0x1b || (0x45 <= op && op <= 0xc4) {
            OpStep::Adv(pos + 1)
        } else if op == 0x02 || op == 0x03 || op == 0x04 || op == 0x0c || op == 0x0d || op == 0x10
            || (0x20 <= op && op <= 0x24) || op == 0x3f || op == 0x40 || op == 0x41 {
            match leb_end(s, pos + 1, 5) {
                None => OpStep::Bad,
                Some(e) => OpStep::Adv(e),
            }
        } else if op == 0x42 {
            match leb_end(s, pos + 1, 10) {
                None => OpStep::Bad,
                Some(e) => OpStep::Adv(e),
            }
        } else if op == 0x43 {
            if pos + 5 <= s.len() {
                OpStep::Adv(pos + 5)
            } else {
                OpStep::Bad
            }
        } else if op == 0x44 {
            if pos + 9 <= s.len() {
                OpStep::Adv(pos + 9)
            } else {
                OpStep::Bad
            }
        } else if op == 0x11 {
            match skip_lebs(s, pos + 1, 2, 5) {
                None => OpStep::Bad,
                Some(e) => OpStep::Adv(e),
            }
        } else if 0x28 <= op && op <= 0x3e {
            // A memarg: alignment flags, then — when bit 6 of the flags is
            // set under multi-memory — a memory index, then the offset.
            match dec_u32(s, pos + 1) {
                None => OpStep::Bad,
                Some((flags, p)) => {
                    let extra: nat = if (flags / 64) % 2 == 1 {
                        2
                    } else {
                        1
                    };
                    match skip_lebs(s, p, extra, 5) {
                        None => OpStep::Bad,
                        Some(e) => OpStep::Adv(e),
                    }
                },
            }
        } else if op == 0x0e {
            match dec_u32(s, pos + 1) {
                None => OpStep::Bad,
                Some((count, p)) => match skip_lebs(s, p, (count + 1) as nat, 5) {
                    None => OpStep::Bad,
                    Some(e) => OpStep::Adv(e),
                },
            }
        } else if op == 0xfc {
            match dec_u32(s, pos + 1) {
                None => OpStep::Bad,
                Some((sub, p)) => if sub <= 7 {
                    OpStep::Adv(p)
                } else if sub == 9 || sub == 12 || sub == 13 || sub == 14 {
                    OpStep::Hit
                } else if sub == 8 || sub == 10 {
                    match skip_lebs(s, p, 2, 5) {
                        None => OpStep::Bad,
                        Some(e) => OpStep::Adv(e),
                    }
                } else if sub == 11 {
                    match leb_end(s, p, 5) {
                        None => OpStep::Bad,
                        Some(e) => OpStep::Adv(e),
                    }
                } else {
                    OpStep::Bad
                },
            }
        } else {
            OpStep::Bad
        }
    }
}

/// A step that advances lands strictly forward and inside the bytes.
pub proof fn lemma_op_step_adv(s: Seq<u8>, pos: int)
    ensures
        op_step(s, pos) matches OpStep::Adv(e) ==> pos < e <= s.len(),
{
    if 0 <= pos < s.len() {
        lemma_dec_uleb_bounds(s, pos + 1, 5);
        lemma_dec_uleb_bounds(s, pos + 1, 10);
        lemma_skip_lebs_bounds(s, pos + 1, 2, 5);
        match dec_u32(s, pos + 1) {
            None => {},
            Some((c, p)) => {
                lemma_skip_lebs_bounds(s, p, (c + 1) as nat, 5);
                lemma_skip_lebs_bounds(s, p, 2, 5);
                lemma_skip_lebs_bounds(s, p, 1, 5);
                lemma_dec_uleb_bounds(s, p, 5);
            },
        }
    }
}

/// Scan an instruction sequence that must fill `s` from `pos` to its end.
pub open spec fn scan_ops(s: Seq<u8>, pos: int) -> Verdict
    decreases s.len() - pos,
    when 0 <= pos <= s.len()
    via scan_ops_decreases
{
    if pos == s.len() {
        Verdict::Clean
    } else {
        match op_step(s, pos) {
            OpStep::Bad => Verdict::Bad,
            OpStep::Hit => Verdict::Blocked,
            OpStep::Adv(e) => scan_ops(s, e),
        }
    }
}

#[via_fn]
proof fn scan_ops_decreases(s: Seq<u8>, pos: int) {
    lemma_op_step_adv(s, pos);
}

/// Execute one scan step, as `op_step` describes.
fn op_step_exec(b: &[u8], pos: usize) -> (r: (Verdict, usize))
    ensures
        (match op_step(b@, pos as int) {
            OpStep::Adv(e) => r.0 == Verdict::Clean && r.1 as int == e,
            OpStep::Hit => r.0 == Verdict::Blocked,
            OpStep::Bad => r.0 == Verdict::Bad,
        }),
{
    if pos >= b.len() {
        return (Verdict::Bad, 0);
    }
    let op = b[pos];
    if op == 0x00 || op == 0x01 || op == 0x05 || op == 0x0b || op == 0x0f || op == 0x1a || op
        == 0x1b || (0x45 <= op && op <= 0xc4) {
        (Verdict::Clean, pos + 1)
    } else if op == 0x02 || op == 0x03 || op == 0x04 || op == 0x0c || op == 0x0d || op == 0x10 || (
    0x20 <= op && op <= 0x24) || op == 0x3f || op == 0x40 || op == 0x41 {
        match skip_leb(b, pos + 1, 5) {
            None => (Verdict::Bad, 0),
            Some(e) => (Verdict::Clean, e),
        }
    } else if op == 0x42 {
        match skip_leb(b, pos + 1, 10) {
            None => (Verdict::Bad, 0),
            Some(e) => (Verdict::Clean, e),
        }
    } else if op == 0x43 {
        if b.len() - pos >= 5 {
            (Verdict::Clean, pos + 5)
        } else {
            (Verdict::Bad, 0)
        }
    } else if op == 0x44 {
        if b.len() - pos >= 9 {
            (Verdict::Clean, pos + 9)
        } else {
            (Verdict::Bad, 0)
        }
    } else if op == 0x11 {
        match skip_lebs_exec(b, pos + 1, 2, 5) {
            None => (Verdict::Bad, 0),
            Some(e) => (Verdict::Clean, e),
        }
    } else if 0x28 <= op && op <= 0x3e {
        match read_u32(b, pos + 1) {
            None => (Verdict::Bad, 0),
            Some((flags, p)) => {
                proof {
                    lemma_dec_uleb_bounds(b@, pos as int + 1, 5);
                }
                let extra: u64 = if (flags / 64) % 2 == 1 {
                    2
                } else {
                    1
                };
                match skip_lebs_exec(b, p, extra, 5) {
                    None => (Verdict::Bad, 0),
                    Some(e) => (Verdict::Clean, e),
                }
            },
        }
    } else if op == 0x0e {
        match read_u32(b, pos + 1) {
            None => (Verdict::Bad, 0),
            Some((count, p)) => {
                proof {
                    lemma_dec_uleb_bounds(b@, pos as int + 1, 5);
                }
                match skip_lebs_exec(b, p, count as u64 + 1, 5) {
                    None => (Verdict::Bad, 0),
                    Some(e) => (Verdict::Clean, e),
                }
            },
        }
    } else if op == 0xfc {
        match read_u32(b, pos + 1) {
            None => (Verdict::Bad, 0),
            Some((sub, p)) => {
                proof {
                    lemma_dec_uleb_bounds(b@, pos as int + 1, 5);
                }
                if sub <= 7 {
                    (Verdict::Clean, p)
                } else if sub == 9 || sub == 12 || sub == 13 || sub == 14 {
                    (Verdict::Blocked, 0)
                } else if sub == 8 || sub == 10 {
                    match skip_lebs_exec(b, p, 2, 5) {
                        None => (Verdict::Bad, 0),
                        Some(e) => (Verdict::Clean, e),
                    }
                } else if sub == 11 {
                    match skip_leb(b, p, 5) {
                        None => (Verdict::Bad, 0),
                        Some(e) => (Verdict::Clean, e),
                    }
                } else {
                    (Verdict::Bad, 0)
                }
            },
        }
    } else {
        (Verdict::Bad, 0)
    }
}

/// Skip `n` consecutive LEB128 integers, as `skip_lebs` describes.
fn skip_lebs_exec(b: &[u8], pos: usize, n: u64, max: usize) -> (r: Option<usize>)
    requires
        max <= 10,
        pos as int <= b@.len(),
    ensures
        (match skip_lebs(b@, pos as int, n as nat, max as int) {
            Some(p) => r matches Some(rp) && rp as int == p,
            None => r is None,
        }),
{
    let mut cur = pos;
    let mut i: u64 = 0;
    while i < n
        invariant
            i <= n,
            max <= 10,
            cur as int <= b@.len(),
            skip_lebs(b@, cur as int, (n - i) as nat, max as int) == skip_lebs(
                b@,
                pos as int,
                n as nat,
                max as int,
            ),
        decreases n - i,
    {
        match skip_leb(b, cur, max) {
            None => {
                return None;
            },
            Some(p) => {
                proof {
                    lemma_dec_uleb_bounds(b@, cur as int, max as int);
                }
                cur = p;
            },
        }
        i += 1;
    }
    Some(cur)
}

/// Scan an instruction sequence, as `scan_ops` describes.
pub fn scan_ops_exec(b: &[u8], pos: usize) -> (r: Verdict)
    requires
        pos as int <= b@.len(),
    ensures
        r == scan_ops(b@, pos as int),
{
    let mut cur = pos;
    loop
        invariant
            cur as int <= b@.len(),
            scan_ops(b@, cur as int) == scan_ops(b@, pos as int),
        decreases b@.len() - cur,
    {
        if cur == b.len() {
            return Verdict::Clean;
        }
        let (v, next) = op_step_exec(b, cur);
        match v {
            Verdict::Bad => {
                return Verdict::Bad;
            },
            Verdict::Blocked => {
                return Verdict::Blocked;
            },
            Verdict::Clean => {
                proof {
                    lemma_op_step_adv(b@, cur as int);
                }
                cur = next;
            },
        }
    }
}

/// The position after the local declarations of a function body: `n` entries,
/// each a count and a value type byte.
pub open spec fn skip_locals(s: Seq<u8>, pos: int, n: nat) -> Option<int>
    decreases n,
{
    if n == 0 {
        Some(pos)
    } else {
        match leb_end(s, pos, 5) {
            None => None,
            Some(p) => if p + 1 <= s.len() {
                skip_locals(s, p + 1, (n - 1) as nat)
            } else {
                None
            },
        }
    }
}

/// Skipping local declarations stays inside the bytes.
pub proof fn lemma_skip_locals_bounds(s: Seq<u8>, pos: int, n: nat)
    requires
        0 <= pos <= s.len(),
    ensures
        skip_locals(s, pos, n) matches Some(p) ==> pos <= p <= s.len(),
    decreases n,
{
    if n > 0 {
        lemma_dec_uleb_bounds(s, pos, 5);
        match leb_end(s, pos, 5) {
            None => {},
            Some(p) => {
                if p + 1 <= s.len() {
                    lemma_skip_locals_bounds(s, p + 1, (n - 1) as nat);
                }
            },
        }
    }
}

/// Scan one function body: local declarations, then instructions to the end.
pub open spec fn scan_func_body(b: Seq<u8>) -> Verdict {
    match dec_u32(b, 0) {
        None => Verdict::Bad,
        Some((n, p)) => match skip_locals(b, p, n as nat) {
            None => Verdict::Bad,
            Some(p2) => scan_ops(b, p2),
        },
    }
}

/// Scan one function body, as `scan_func_body` describes.
pub fn scan_func_body_exec(b: &[u8]) -> (r: Verdict)
    ensures
        r == scan_func_body(b@),
{
    let (n, p) = match read_u32(b, 0) {
        None => {
            return Verdict::Bad;
        },
        Some(x) => x,
    };
    proof {
        lemma_dec_uleb_bounds(b@, 0, 5);
    }
    let mut cur = p;
    let mut i: u32 = 0;
    while i < n
        invariant
            i <= n,
            cur as int <= b@.len(),
            dec_u32(b@, 0) == Some((n, p as int)),
            skip_locals(b@, cur as int, (n - i) as nat) == skip_locals(b@, p as int, n as nat),
        decreases n - i,
    {
        proof {
            assert(skip_locals(b@, cur as int, (n - i) as nat) == (match leb_end(b@, cur as int, 5) {
                None => None,
                Some(q) => if q + 1 <= b@.len() {
                    skip_locals(b@, q + 1, (n - i - 1) as nat)
                } else {
                    None
                },
            }));
        }
        match skip_leb(b, cur, 5) {
            None => {
                return Verdict::Bad;
            },
            Some(q) => {
                proof {
                    lemma_dec_uleb_bounds(b@, cur as int, 5);
                }
                if q >= b.len() {
                    return Verdict::Bad;
                }
                cur = q + 1;
            },
        }
        i += 1;
    }
    scan_ops_exec(b, cur)
}

/// Scan the `n` size-prefixed function bodies of a code section from `pos`,
/// which must end exactly at the end of the section.
pub open spec fn scan_funcs(s: Seq<u8>, pos: int, n: nat) -> Verdict
    decreases n,
{
    if n == 0 {
        if pos == s.len() {
            Verdict::Clean
        } else {
            Verdict::Bad
        }
    } else {
        match dec_u32(s, pos) {
            None => Verdict::Bad,
            Some((size, p2)) => if p2 + size <= s.len() {
                match scan_func_body(s.subrange(p2, p2 + size)) {
                    Verdict::Clean => scan_funcs(s, p2 + size, (n - 1) as nat),
                    v => v,
                }
            } else {
                Verdict::Bad
            },
        }
    }
}

/// Scan a whole code section: the function count, then the bodies.
pub open spec fn scan_code(body: Seq<u8>) -> Verdict {
    match dec_u32(body, 0) {
        None => Verdict::Bad,
        Some((count, p)) => scan_funcs(body, p, count as nat),
    }
}

/// Scan a whole code section, as `scan_code` describes.
pub fn scan_code_exec(body: &[u8]) -> (r: Verdict)
    ensures
        r == scan_code(body@),
{
    let (count, p) = match read_u32(body, 0) {
        None => {
            return Verdict::Bad;
        },
        Some(x) => x,
    };
    proof {
        lemma_dec_uleb_bounds(body@, 0, 5);
    }
    let mut cur = p;
    let mut i: u32 = 0;
    while i < count
        invariant
            i <= count,
            cur as int <= body@.len(),
            dec_u32(body@, 0) == Some((count, p as int)),
            scan_funcs(body@, cur as int, (count - i) as nat) == scan_code(body@),
        decreases count - i,
    {
        let (size, p2) = match read_u32(body, cur) {
            None => {
                return Verdict::Bad;
            },
            Some(x) => x,
        };
        proof {
            lemma_dec_uleb_bounds(body@, cur as int, 5);
        }
        if size as usize > body.len() - p2 {
            return Verdict::Bad;
        }
        let end = p2 + size as usize;
        let fb = crate::sections::bytes_range(body, p2, end);
        let v = scan_func_body_exec(fb.as_slice());
        match v {
            Verdict::Clean => {
                cur = end;
            },
            _ => {
                return v;
            },
        }
        i += 1;
    }
    if cur == body.len() {
        Verdict::Clean
    } else {
        Verdict::Bad
    }
}

/// The position after one constant expression: a single `i32.const`,
/// `i64.const`, `f32.const`, `f64.const` or `global.get` instruction,
/// terminated by `end`.
pub open spec fn const_expr_end(s: Seq<u8>, pos: int) -> Option<int> {
    if !(0 <= pos < s.len()) {
        None
    } else {
        let op = s[pos];
        let imm_end: Option<int> = if op == 0x41 || op == 0x23 {
            leb_end(s, pos + 1, 5)
        } else if op == 0x42 {
            leb_end(s, pos + 1, 10)
        } else if op == 0x43 {
            if pos + 5 <= s.len() {
                Some(pos + 5)
            } else {
                None
            }
        } else if op == 0x44 {
            if pos + 9 <= s.len() {
                Some(pos + 9)
            } else {
                None
            }
        } else {
            None
        };
        match imm_end {
            None => None,
            Some(e) => if e < s.len() && s[e] == 0x0b {
                Some(e + 1)
            } else {
                None
            },
        }
    }
}

/// A constant expression stays inside the bytes.
pub proof fn lemma_const_expr_end_bounds(s: Seq<u8>, pos: int)
    ensures
        const_expr_end(s, pos) matches Some(e) ==> pos < e <= s.len(),
{
    if 0 <= pos < s.len() {
        lemma_dec_uleb_bounds(s, pos + 1, 5);
        lemma_dec_uleb_bounds(s, pos + 1, 10);
    }
}

/// Find the end of one constant expression, as `const_expr_end` describes.
pub fn const_expr_end_exec(s: &[u8], pos: usize) -> (r: Option<usize>)
    ensures
        (match const_expr_end(s@, pos as int) {
            Some(e) => r matches Some(re) && re as int == e,
            None => r is None,
        }),
{
    if pos >= s.len() {
        return None;
    }
    let op = s[pos];
    let imm_end: Option<usize> = if op == 0x41 || op == 0x23 {
        skip_leb(s, pos + 1, 5)
    } else if op == 0x42 {
        skip_leb(s, pos + 1, 10)
    } else if op == 0x43 {
        if s.len() - pos >= 5 {
            Some(pos + 5)
        } else {
            None
        }
    } else if op == 0x44 {
        if s.len() - pos >= 9 {
            Some(pos + 9)
        } else {
            None
        }
    } else {
        None
    };
    proof {
        lemma_dec_uleb_bounds(s@, pos as int + 1, 5);
        lemma_dec_uleb_bounds(s@, pos as int + 1, 10);
    }
    match imm_end {
        None => None,
        Some(e) => if e < s.len() && s[e] == 0x0b {
            Some(e + 1)
        } else {
            None
        },
    }
}

/// Scan the `n` data segments of a data section from `pos`. A passive
/// segment (flags `1`) is `Blocked`; active segments (flags `0` for memory 0,
/// flags `2` with an explicit memory index) are walked through.
pub open spec fn scan_segs(s: Seq<u8>, pos: int, n: nat) -> Verdict
    decreases n,
{
    if n == 0 {
        if pos == s.len() {
            Verdict::Clean
        } else {
            Verdict::Bad
        }
    } else {
        match dec_u32(s, pos) {
            None => Verdict::Bad,
            Some((flags, p)) => if flags == 1 {
                Verdict::Blocked
            } else if flags == 0 || flags == 2 {
                let after_mem: Option<int> = if flags == 2 {
                    leb_end(s, p, 5)
                } else {
                    Some(p)
                };
                match after_mem {
                    None => Verdict::Bad,
                    Some(p1) => match const_expr_end(s, p1) {
                        None => Verdict::Bad,
                        Some(p2) => match dec_u32(s, p2) {
                            None => Verdict::Bad,
                            Some((size, p3)) => if p3 + size <= s.len() {
                                scan_segs(s, p3 + size, (n - 1) as nat)
                            } else {
                                Verdict::Bad
                            },
                        },
                    },
                }
            } else {
                Verdict::Bad
            },
        }
    }
}

/// Scan a whole data section: the segment count, then the segments.
pub open spec fn scan_data(body: Seq<u8>) -> Verdict {
    match dec_u32(body, 0) {
        None => Verdict::Bad,
        Some((count, p)) => scan_segs(body, p, count as nat),
    }
}

/// Scan a whole data section, as `scan_data` describes.
pub fn scan_data_exec(body: &[u8]) -> (r: Verdict)
    ensures
        r == scan_data(body@),
{
    let (count, p) = match read_u32(body, 0) {
        None => {
            return Verdict::Bad;
        },
        Some(x) => x,
    };
    proof {
        lemma_dec_uleb_bounds(body@, 0, 5);
    }
    let mut cur = p;
    let mut i: u32 = 0;
    while i < count
        invariant
            i <= count,
            cur as int <= body@.len(),
            dec_u32(body@, 0) == Some((count, p as int)),
            scan_segs(body@, cur as int, (count - i) as nat) == scan_data(body@),
        decreases count - i,
    {
        let (flags, q) = match read_u32(body, cur) {
            None => {
                return Verdict::Bad;
            },
            Some(x) => x,
        };
        proof {
            lemma_dec_uleb_bounds(body@, cur as int, 5);
        }
        if flags == 1 {
            return Verdict::Blocked;
        }
        if !(flags == 0 || flags == 2) {
            return Verdict::Bad;
        }
        let p1 = if flags == 2 {
            match skip_leb(body, q, 5) {
                None => {
                    return Verdict::Bad;
                },
                Some(x) => x,
            }
        } else {
            q
        };
        proof {
            lemma_dec_uleb_bounds(body@, q as int, 5);
        }
        let p2 = match const_expr_end_exec(body, p1) {
            None => {
                return Verdict::Bad;
            },
            Some(x) => x,
        };
        proof {
            lemma_const_expr_end_bounds(body@, p1 as int);
        }
        let (size, p3) = match read_u32(body, p2) {
            None => {
                return Verdict::Bad;
            },
            Some(x) => x,
        };
        proof {
            lemma_dec_uleb_bounds(body@, p2 as int, 5);
        }
        if size as usize > body.len() - p3 {
            return Verdict::Bad;
        }
        cur = p3 + size as usize;
        i += 1;
    }
    if cur == body.len() {
        Verdict::Clean
    } else {
        Verdict::Bad
    }
}

/// Scan the `n` imports of an import section from `pos`. A function import
/// is walked through; an imported table, memory or global is outside the
/// supported profile (`Blocked`): the snapshot could not capture state living
/// behind it, and the synthetic exports number defined entries from zero.
pub open spec fn scan_imports_entries(s: Seq<u8>, pos: int, n: nat) -> Verdict
    decreases n,
{
    if n == 0 {
        if pos == s.len() {
            Verdict::Clean
        } else {
            Verdict::Bad
        }
    } else {
        match dec_u32(s, pos) {
            None => Verdict::Bad,
            Some((mlen, p)) => if p + mlen <= s.len() {
                match dec_u32(s, p + mlen) {
                    None => Verdict::Bad,
                    Some((flen, p2)) => if p2 + flen < s.len() {
                        let desc = s[p2 + flen];
                        if desc == 0 {
                            match leb_end(s, p2 + flen + 1, 5) {
                                None => Verdict::Bad,
                                Some(p3) => scan_imports_entries(s, p3, (n - 1) as nat),
                            }
                        } else if desc == 1 || desc == 2 || desc == 3 {
                            Verdict::Blocked
                        } else {
                            Verdict::Bad
                        }
                    } else {
                        Verdict::Bad
                    },
                }
            } else {
                Verdict::Bad
            },
        }
    }
}

/// Scan a whole import section: the count, then the imports.
pub open spec fn scan_imports(body: Seq<u8>) -> Verdict {
    match dec_u32(body, 0) {
        None => Verdict::Bad,
        Some((count, p)) => scan_imports_entries(body, p, count as nat),
    }
}

/// Scan a whole import section, as `scan_imports` describes.
pub fn scan_imports_exec(body: &[u8]) -> (r: Verdict)
    ensures
        r == scan_imports(body@),
{
    let (count, p) = match read_u32(body, 0) {
        None => {
            return Verdict::Bad;
        },
        Some(x) => x,
    };
    proof {
        lemma_dec_uleb_bounds(body@, 0, 5);
    }
    let mut cur = p;
    let mut i: u32 = 0;
    while i < count
        invariant
            i <= count,
            cur as int <= body@.len(),
            dec_u32(body@, 0) == Some((count, p as int)),
            scan_imports_entries(body@, cur as int, (count - i) as nat) == scan_imports(body@),
        decreases count - i,
    {
        let (mlen, q) = match read_u32(body, cur) {
            None => {
                return Verdict::Bad;
            },
            Some(x) => x,
        };
        proof {
            lemma_dec_uleb_bounds(body@, cur as int, 5);
        }
        if mlen as usize > body.len() - q {
            return Verdict::Bad;
        }
        let (flen, q2) = match read_u32(body, q + mlen as usize) {
            None => {
                return Verdict::Bad;
            },
            Some(x) => x,
        };
        proof {
            lemma_dec_uleb_bounds(body@, q as int + mlen as int, 5);
        }
        if flen as usize >= body.len() - q2 {
            return Verdict::Bad;
        }
        let dpos = q2 + flen as usize;
        let desc = body[dpos];
        if desc == 0 {
            match skip_leb(body, dpos + 1, 5) {
                None => {
                    return Verdict::Bad;
                },
                Some(p3) => {
                    proof {
                        lemma_dec_uleb_bounds(body@, dpos as int + 1, 5);
                    }
                    cur = p3;
                },
            }
        } else if desc == 1 || desc == 2 || desc == 3 {
            return Verdict::Blocked;
        } else {
            return Verdict::Bad;
        }
        i += 1;
    }
    if cur == body.len() {
        Verdict::Clean
    } else {
        Verdict::Bad
    }
}

/// The extra validation of a section list from index `i` on: an import of a
/// table, memory or global is outside the accepted profile (the input is
/// rejected as invalid), the first code section that scans `Blocked` is an
/// unsupported instruction, the first data section that scans `Blocked` is an
/// unsupported data kind, and bytes that do not decode are malformed input.
pub open spec fn extra_validation_from(ss: Seq<(u8, Seq<u8>)>, i: int) -> Result<(), ErrorKind>
    decreases ss.len() - i,
    when 0 <= i
{
    if i >= ss.len() {
        Ok(())
    } else {
        let id = ss[i].0;
        let body = ss[i].1;
        if id == 2 {
            match scan_imports(body) {
                Verdict::Clean => extra_validation_from(ss, i + 1),
                Verdict::Blocked => Err(ErrorKind::InvalidInput),
                Verdict::Bad => Err(ErrorKind::MalformedInput),
            }
        } else if id == 10 {
            match scan_code(body) {
                Verdict::Clean => extra_validation_from(ss, i + 1),
                Verdict::Blocked => Err(ErrorKind::UnsupportedInstruction),
                Verdict::Bad => Err(ErrorKind::MalformedInput),
            }
        } else if id == 11 {
            match scan_data(body) {
                Verdict::Clean => extra_validation_from(ss, i + 1),
                Verdict::Blocked => Err(ErrorKind::UnsupportedDataKind),
                Verdict::Bad => Err(ErrorKind::MalformedInput),
            }
        } else {
            extra_validation_from(ss, i + 1)
        }
    }
}

/// Run the extra validation pass over a module's sections, exactly as
/// `extra_validation_from` describes.
pub fn extra_validation(secs: &Vec<RawSection>) -> (r: Result<(), ErrorKind>)
    ensures
        r == extra_validation_from(sections_view(secs@), 0),
{
    let ghost ss = sections_view(secs@);
    let mut i: usize = 0;
    while i < secs.len()
        invariant
            i <= secs@.len(),
            ss == sections_view(secs@),
            ss.len() == secs@.len(),
            extra_validation_from(ss, i as int) == extra_validation_from(ss, 0),
        decreases secs@.len() - i,
    {
        proof {
            assert(ss[i as int] == (secs@[i as int].id, secs@[i as int].body@));
        }
        let sec = &secs[i];
        if sec.id == 2 {
            match scan_imports_exec(sec.body.as_slice()) {
                Verdict::Clean => {},
                Verdict::Blocked => {
                    return Err(ErrorKind::InvalidInput);
                },
                Verdict::Bad => {
                    return Err(ErrorKind::MalformedInput);
                },
            }
        } else if sec.id == 10 {
            match scan_code_exec(sec.body.as_slice()) {
                Verdict::Clean => {},
                Verdict::Blocked => {
                    return Err(ErrorKind::UnsupportedInstruction);
                },
                Verdict::Bad => {
                    return Err(ErrorKind::MalformedInput);
                },
            }
        } else if sec.id == 11 {
            match scan_data_exec(sec.body.as_slice()) {
                Verdict::Clean => {},
                Verdict::Blocked => {
                    return Err(ErrorKind::UnsupportedDataKind);
                },
                Verdict::Bad => {
                    return Err(ErrorKind::MalformedInput);
                },
            }
        }
        i += 1;
    }
    Ok(())
}

/// A module whose sections all decode and whose data sections are free of
/// passive segments, but with a blocked bulk-memory instruction in some code
/// section, fails the extra validation with `UnsupportedInstruction`.
pub proof fn lemma_gate_instruction(ss: Seq<(u8, Seq<u8>)>, i: int)
    requires
        0 <= i <= ss.len(),
        exists|j: int| i <= j < ss.len() && ss[j].0 == 10 && scan_code(ss[j].1) == Verdict::Blocked,
        forall|j: int| 0 <= j < ss.len() && ss[j].0 == 10 ==> scan_code(ss[j].1) != Verdict::Bad,
        forall|j: int| 0 <= j < ss.len() && ss[j].0 == 11 ==> scan_data(ss[j].1) == Verdict::Clean,
        forall|j: int| 0 <= j < ss.len() && ss[j].0 == 2 ==> scan_imports(ss[j].1) == Verdict::Clean,
    ensures
        extra_validation_from(ss, i) == Err::<(), ErrorKind>(ErrorKind::UnsupportedInstruction),
    decreases ss.len() - i,
{
    let j = choose|j: int|
        i <= j < ss.len() && ss[j].0 == 10 && scan_code(ss[j].1) == Verdict::Blocked;
    if i == j {
    } else {
        lemma_gate_instruction(ss, i + 1);
    }
}

/// A module whose sections all decode and whose code sections are free of
/// blocked instructions, but with a passive segment in some data section,
/// fails the extra validation with `UnsupportedDataKind`.
pub proof fn lemma_gate_data(ss: Seq<(u8, Seq<u8>)>, i: int)
    requires
        0 <= i <= ss.len(),
        exists|j: int| i <= j < ss.len() && ss[j].0 == 11 && scan_data(ss[j].1) == Verdict::Blocked,
        forall|j: int| 0 <= j < ss.len() && ss[j].0 == 11 ==> scan_data(ss[j].1) != Verdict::Bad,
        forall|j: int| 0 <= j < ss.len() && ss[j].0 == 10 ==> scan_code(ss[j].1) == Verdict::Clean,
        forall|j: int| 0 <= j < ss.len() && ss[j].0 == 2 ==> scan_imports(ss[j].1) == Verdict::Clean,
    ensures
        extra_validation_from(ss, i) == Err::<(), ErrorKind>(ErrorKind::UnsupportedDataKind),
    decreases ss.len() - i,
{
    let j = choose|j: int|
        i <= j < ss.len() && ss[j].0 == 11 && scan_data(ss[j].1) == Verdict::Blocked;
    if i == j {
    } else {
        lemma_gate_data(ss, i + 1);
    }
}


/// Whether the external validator accepts a module under a feature set: a
/// function of the bytes and the features alone.
pub uninterp spec fn accepted_by_validator(wasm: Seq<u8>, f: Features) -> bool;

/// Relies on wasmparser's `Validator::validate_all`: checks the whole module
/// against the WebAssembly specification under exactly the accepted profile,
/// built up from the 1.0 feature set: mutable globals, sign extension and
/// saturating truncation, plus multi-value, multi-memory and bulk memory as
/// the features ask (bulk memory is always on here, since the format is
/// ambiguous without it). Every other proposal stays off. The module-linking
/// proposal was withdrawn and today's validator has no switch for it, so that
/// toggle is inert and nested-module binaries are refused as invalid.
#[verifier::external_body]
pub fn validator_accepts(wasm: &[u8], f: &Features) -> (r: bool)
    ensures
        r == accepted_by_validator(wasm@, *f),
{
    let mut wf = wasmparser::WasmFeatures::WASM1.union(
        wasmparser::WasmFeatures::SIGN_EXTENSION,
    ).union(wasmparser::WasmFeatures::SATURATING_FLOAT_TO_INT);
    wf.set(wasmparser::WasmFeatures::MULTI_VALUE, f.multi_value);
    wf.set(wasmparser::WasmFeatures::MULTI_MEMORY, f.multi_memory);
    wf.set(wasmparser::WasmFeatures::BULK_MEMORY, f.bulk_memory);
    wasmparser::Validator::new_with_features(wf).validate_all(wasm).is_ok()
}


} // verus!
