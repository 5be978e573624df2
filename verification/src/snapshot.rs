//! The snapshot: the state captured from a live instance after its
//! initialization function returned. It is a pure value — final memory
//! contents and final mutable-global values — holding no reference to the
//! engine. The engine driver fills it through the synthetic exports the
//! instrumenter added; the rewriter consumes it.

use crate::sections::bytes_range;
use vstd::prelude::*;

verus! {

/// The final value of one mutable global, by value type. Float values are
/// carried as their raw bit patterns: the rewriter writes them back into
/// `f32.const` / `f64.const` immediates byte for byte, so no floating-point
/// arithmetic ever touches them.
#[derive(Clone, Copy, PartialEq, Eq, Structural, Debug)]
pub enum GlobalVal {
    /// An `i32` value, as its 32-bit pattern.
    I32(u32),
    /// An `i64` value, as its 64-bit pattern.
    I64(u64),
    /// An `f32` value, as its raw bit pattern.
    F32Bits(u32),
    /// An `f64` value, as its raw bit pattern.
    F64Bits(u64),
}

/// One memory's captured state: its final size in pages and its full final
/// contents.
pub struct MemSnapshot {
    /// The final size, in 64 KiB pages.
    pub page_count: u32,
    /// The final contents; its length is `page_count` pages.
    pub data: Vec<u8>,
}

impl View for MemSnapshot {
    type V = (u32, Seq<u8>);

    open spec fn view(&self) -> (u32, Seq<u8>) {
        (self.page_count, self.data@)
    }
}

/// The captured state of one initialized instance.
pub struct Snapshot {
    /// One entry per defined memory, in index order.
    pub memories: Vec<MemSnapshot>,
    /// One entry per defined global, in index order: the captured value for a
    /// mutable global, `None` for an immutable one (whose initializer is
    /// preserved unchanged).
    pub globals: Vec<Option<GlobalVal>>,
    /// Whether an adapter-style `_initialize` export was present and invoked
    /// before the configured initializer. The rewriter does not read it — it
    /// leaves an `_initialize` export untouched either way — but the driver
    /// records the fact here for its caller.
    pub adapter_initialized: bool,
}

/// The end of the run of non-zero bytes starting at `i`: the first position
/// at or after `i` holding zero, or the end of the memory.
pub open spec fn run_end(mem: Seq<u8>, i: int) -> int
    decreases mem.len() - i,
    when 0 <= i <= mem.len()
{
    if i == mem.len() {
        i
    } else if mem[i] == 0 {
        i
    } else {
        run_end(mem, i + 1)
    }
}

/// The run end stays inside the memory and moves forward over a non-zero
/// byte.
pub proof fn lemma_run_end_bounds(mem: Seq<u8>, i: int)
    requires
        0 <= i <= mem.len(),
    ensures
        i <= run_end(mem, i) <= mem.len(),
        i < mem.len() && mem[i] != 0 ==> run_end(mem, i) > i,
    decreases mem.len() - i,
{
    if i < mem.len() && mem[i] != 0 {
        lemma_run_end_bounds(mem, i + 1);
    }
}

/// The maximal runs of non-zero bytes from `i` on, each as its offset and its
/// bytes. These become the output module's active data segments: together
/// they cover exactly the non-zero bytes of the memory.
pub open spec fn runs_from(mem: Seq<u8>, i: int) -> Seq<(int, Seq<u8>)>
    decreases mem.len() - i,
    when 0 <= i <= mem.len()
    via runs_from_decreases
{
    if i >= mem.len() {
        Seq::empty()
    } else if mem[i] == 0 {
        runs_from(mem, i + 1)
    } else {
        let j = run_end(mem, i);
        seq![(i, mem.subrange(i, j))].add(runs_from(mem, j))
    }
}

#[via_fn]
proof fn runs_from_decreases(mem: Seq<u8>, i: int) {
    if 0 <= i <= mem.len() {
        lemma_run_end_bounds(mem, i);
    }
}

/// The view of a run list.
pub open spec fn runs_view(v: Seq<(u32, Vec<u8>)>) -> Seq<(int, Seq<u8>)> {
    v.map_values(|p: (u32, Vec<u8>)| (p.0 as int, p.1@))
}

/// Compute the maximal non-zero runs of a memory, as `runs_from` describes.
pub fn nonzero_runs(mem: &[u8]) -> (r: Vec<(u32, Vec<u8>)>)
    requires
        mem@.len() < 0x1_0000_0000,
    ensures
        runs_view(r@) == runs_from(mem@, 0),
{
    let mut out: Vec<(u32, Vec<u8>)> = Vec::new();
    let mut pos: usize = 0;
    proof {
        assert(runs_view(out@) =~= Seq::<(int, Seq<u8>)>::empty());
    }
    while pos < mem.len()
        invariant
            pos <= mem@.len(),
            mem@.len() < 0x1_0000_0000,
            runs_view(out@).add(runs_from(mem@, pos as int)) == runs_from(mem@, 0),
        decreases mem@.len() - pos,
    {
        if mem[pos] == 0 {
            pos += 1;
            continue ;
        }
        // Find the end of this non-zero run.
        let start = pos;
        let mut j = pos;
        while j < mem.len() && mem[j] != 0
            invariant
                start <= j <= mem@.len(),
                run_end(mem@, j as int) == run_end(mem@, start as int),
            decreases mem@.len() - j,
        {
            j += 1;
        }
        proof {
            lemma_run_end_bounds(mem@, start as int);
            assert(run_end(mem@, j as int) == j as int);
        }
        let bytes = bytes_range(mem, start, j);
        let ghost prev = runs_view(out@);
        out.push((start as u32, bytes));
        proof {
            assert(runs_view(out@) =~= prev.push(
                (start as int, mem@.subrange(start as int, j as int)),
            ));
            assert(runs_from(mem@, start as int) == seq![
                (start as int, mem@.subrange(start as int, j as int)),
            ].add(runs_from(mem@, j as int)));
            assert(runs_view(out@).add(runs_from(mem@, j as int)) =~= prev.add(
                runs_from(mem@, start as int),
            ));
        }
        pos = j;
    }
    proof {
        assert(runs_from(mem@, pos as int) =~= Seq::<(int, Seq<u8>)>::empty());
        assert(runs_view(out@).add(Seq::empty()) =~= runs_view(out@));
    }
    out
}

/// Whether some run covers position `k`.
pub open spec fn covered(runs: Seq<(int, Seq<u8>)>, k: int) -> bool {
    exists|r: int|
        0 <= r < runs.len() && (#[trigger] runs[r]).0 <= k < runs[r].0 + runs[r].1.len()
}

/// The runs cover exactly the non-zero bytes: every non-zero position is in
/// some run, every run holds exactly the memory's bytes over its range, and
/// every byte a run holds is non-zero.
pub proof fn lemma_runs_exact(mem: Seq<u8>, i: int)
    requires
        0 <= i <= mem.len(),
    ensures
        forall|k: int| i <= k < mem.len() && mem[k] != 0 ==> covered(runs_from(mem, i), k),
        forall|r: int|
            0 <= r < runs_from(mem, i).len() ==> i <= (#[trigger] runs_from(mem, i)[r]).0
                && runs_from(mem, i)[r].0 + runs_from(mem, i)[r].1.len() <= mem.len()
                && runs_from(mem, i)[r].1 == mem.subrange(
                runs_from(mem, i)[r].0,
                runs_from(mem, i)[r].0 + runs_from(mem, i)[r].1.len(),
            ),
        forall|r: int, off: int|
            0 <= r < runs_from(mem, i).len() && 0 <= off < runs_from(mem, i)[r].1.len()
                ==> (#[trigger] runs_from(mem, i)[r].1[off]) != 0,
    decreases mem.len() - i,
{
    lemma_run_end_bounds(mem, i);
    let rs = runs_from(mem, i);
    if i >= mem.len() {
    } else if mem[i] == 0 {
        lemma_runs_exact(mem, i + 1);
        let rs1 = runs_from(mem, i + 1);
        assert(rs == rs1);
        assert forall|k: int| i <= k < mem.len() && mem[k] != 0 implies covered(rs, k) by {
            assert(covered(rs1, k));
        }
        assert forall|r: int| 0 <= r < rs.len() implies i <= (#[trigger] rs[r]).0 && rs[r].0
            + rs[r].1.len() <= mem.len() && rs[r].1 == mem.subrange(
            rs[r].0,
            rs[r].0 + rs[r].1.len(),
        ) by {
            assert(i + 1 <= rs1[r].0);
        }
        assert forall|r: int, off: int|
            0 <= r < rs.len() && 0 <= off < rs[r].1.len() implies (#[trigger] rs[r].1[off])
            != 0 by {
            assert(rs1[r].1[off] != 0);
        }
    } else {
        let j = run_end(mem, i);
        lemma_run_end_zeroes(mem, i);
        lemma_runs_exact(mem, j);
        let rest = runs_from(mem, j);
        let head = (i, mem.subrange(i, j));
        assert(rs == seq![head].add(rest));
        assert(rs[0] == head);
        assert forall|r: int| 1 <= r < rs.len() implies rs[r] == rest[r - 1] by {}
        assert forall|k: int| i <= k < mem.len() && mem[k] != 0 implies covered(rs, k) by {
            if k < j {
                assert((#[trigger] rs[0]).0 <= k < rs[0].0 + rs[0].1.len());
            } else {
                assert(covered(rest, k));
                let r = choose|r: int|
                    0 <= r < rest.len() && (#[trigger] rest[r]).0 <= k < rest[r].0
                        + rest[r].1.len();
                assert((#[trigger] rs[r + 1]).0 <= k < rs[r + 1].0 + rs[r + 1].1.len());
            }
        }
        assert forall|r: int| 0 <= r < rs.len() implies i <= (#[trigger] rs[r]).0 && rs[r].0
            + rs[r].1.len() <= mem.len() && rs[r].1 == mem.subrange(
            rs[r].0,
            rs[r].0 + rs[r].1.len(),
        ) by {
            if r == 0 {
                assert(rs[0].1 =~= mem.subrange(rs[0].0, rs[0].0 + rs[0].1.len()));
            } else {
                assert(i <= rest[r - 1].0);
            }
        }
        assert forall|r: int, off: int|
            0 <= r < rs.len() && 0 <= off < rs[r].1.len() implies (#[trigger] rs[r].1[off])
            != 0 by {
            if r == 0 {
                assert(rs[0].1[off] == mem[i + off]);
            } else {
                assert(rest[r - 1].1[off] != 0);
            }
        }
    }
}

/// Every byte before the run's end, from a non-zero start, is non-zero.
proof fn lemma_run_end_zeroes(mem: Seq<u8>, i: int)
    requires
        0 <= i <= mem.len(),
    ensures
        forall|k: int| i <= k < run_end(mem, i) ==> mem[k] != 0,
    decreases mem.len() - i,
{
    if i < mem.len() && mem[i] != 0 {
        lemma_run_end_zeroes(mem, i + 1);
    }
}

} // verus!
