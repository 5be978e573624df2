//! The function rename table: `dst=src` specifications parsed into a mapping
//! from source export names to destination names, with duplicate sources and
//! duplicate destinations rejected.

use crate::sections::{bytes_eq, bytes_range};
use crate::ErrorKind;
use vstd::prelude::*;
use vstd::string::StrSliceExecFns;
use vstd::string::StringSliceAdditionalSpecFns;

verus! {

/// The position of the first `=` in a byte string, searching from `i`.
pub open spec fn find_eq(s: Seq<u8>, i: int) -> Option<int>
    decreases s.len() - i,
    when 0 <= i
{
    if i >= s.len() {
        None
    } else if s[i] == 0x3du8 {
        Some(i)
    } else {
        find_eq(s, i + 1)
    }
}

/// Whether some pair in the table has this source name.
pub open spec fn has_src(pairs: Seq<(Seq<u8>, Seq<u8>)>, name: Seq<u8>) -> bool {
    exists|k: int| 0 <= k < pairs.len() && pairs[k].0 == name
}

/// Whether some pair in the table has this destination name.
pub open spec fn has_dst(pairs: Seq<(Seq<u8>, Seq<u8>)>, name: Seq<u8>) -> bool {
    exists|k: int| 0 <= k < pairs.len() && pairs[k].1 == name
}

/// The destination a source name is renamed to, if any.
pub open spec fn dst_of(pairs: Seq<(Seq<u8>, Seq<u8>)>, name: Seq<u8>) -> Seq<u8> {
    pairs[choose|k: int| 0 <= k < pairs.len() && pairs[k].0 == name].1
}

/// Parsing a list of rename specifications, each given as its bytes, in
/// order: a specification without `=` is malformed; the part before the first
/// `=` is the destination, the part after it the source; a repeated source or
/// a repeated destination is a duplicate. The result is the list of
/// `(source, destination)` pairs.
pub open spec fn parse_renames_spec(specs: Seq<Seq<u8>>) -> Result<
    Seq<(Seq<u8>, Seq<u8>)>,
    ErrorKind,
>
    decreases specs.len(),
{
    if specs.len() == 0 {
        Ok(Seq::empty())
    } else {
        match parse_renames_spec(specs.drop_last()) {
            Err(e) => Err(e),
            Ok(pairs) => {
                let s = specs.last();
                match find_eq(s, 0) {
                    None => Err(ErrorKind::MalformedRename),
                    Some(i) => {
                        let dst = s.take(i);
                        let src = s.skip(i + 1);
                        if has_dst(pairs, dst) || has_src(pairs, src) {
                            Err(ErrorKind::DuplicateRename)
                        } else {
                            Ok(pairs.push((src, dst)))
                        }
                    },
                }
            },
        }
    }
}

/// The parsed rename table: `(source, destination)` pairs in specification
/// order. Sources are pairwise distinct and destinations are pairwise
/// distinct; the set of suppressed destination names is exactly the second
/// components.
pub struct FuncRenames {
    /// The `(source, destination)` pairs, as export-name bytes.
    pub pairs: Vec<(Vec<u8>, Vec<u8>)>,
}

impl View for FuncRenames {
    type V = Seq<(Seq<u8>, Seq<u8>)>;

    open spec fn view(&self) -> Seq<(Seq<u8>, Seq<u8>)> {
        self.pairs@.map_values(|p: (Vec<u8>, Vec<u8>)| (p.0@, p.1@))
    }
}

/// The byte strings of a list of rename specifications.
pub open spec fn spec_bytes_of(renames: Seq<String>) -> Seq<Seq<u8>> {
    renames.map_values(|s: String| vstd::utf8::encode_utf8(s@))
}

/// Pairwise distinct sources and pairwise distinct destinations.
pub open spec fn distinct_pairs(ps: Seq<(Seq<u8>, Seq<u8>)>) -> bool {
    forall|a: int, b: int| 0 <= a < b < ps.len() ==> ps[a].0 != ps[b].0 && ps[a].1 != ps[b].1
}

impl FuncRenames {
    /// Sources are pairwise distinct and destinations are pairwise distinct.
    pub open spec fn wf(&self) -> bool {
        distinct_pairs(self@)
    }

    /// Parse `dst=src` rename specifications into a table, exactly as
    /// `parse_renames_spec` describes.
    pub fn parse(renames: &Vec<String>) -> (r: Result<FuncRenames, ErrorKind>)
        ensures
            (match r {
                Ok(fr) => parse_renames_spec(spec_bytes_of(renames@)) == Ok::<_, ErrorKind>(fr@)
                    && fr.wf(),
                Err(e) => parse_renames_spec(spec_bytes_of(renames@)) == Err::<
                    Seq<(Seq<u8>, Seq<u8>)>,
                    _,
                >(e),
            }),
    {
        let ghost specs = spec_bytes_of(renames@);
        let mut pairs: Vec<(Vec<u8>, Vec<u8>)> = Vec::new();
        let mut idx: usize = 0;
        proof {
            assert(specs.take(0) =~= Seq::<Seq<u8>>::empty());
            assert(pairs@.map_values(|p: (Vec<u8>, Vec<u8>)| (p.0@, p.1@)) =~= Seq::<
                (Seq<u8>, Seq<u8>),
            >::empty());
        }
        while idx < renames.len()
            invariant
                idx <= renames@.len(),
                specs == spec_bytes_of(renames@),
                specs.len() == renames@.len(),
                parse_renames_spec(specs.take(idx as int)) == Ok::<_, ErrorKind>(
                    pairs@.map_values(|p: (Vec<u8>, Vec<u8>)| (p.0@, p.1@)),
                ),
                distinct_pairs(pairs@.map_values(|p: (Vec<u8>, Vec<u8>)| (p.0@, p.1@))),
            decreases renames@.len() - idx,
        {
            let ghost prefix = specs.take(idx as int);
            let ghost cur_pairs = pairs@.map_values(|p: (Vec<u8>, Vec<u8>)| (p.0@, p.1@));
            let b: Vec<u8> = renames[idx].as_str().as_bytes_vec();
            proof {
                assert(specs.take(idx as int + 1).drop_last() =~= prefix);
                assert(specs.take(idx as int + 1).last() == b@);
            }
            // Find the first `=`.
            let mut j: usize = 0;
            let mut found: bool = false;
            while j < b.len() && !found
                invariant
                    j <= b@.len(),
                    found ==> j < b@.len() && b@[j as int] == 0x3du8 && find_eq(b@, 0) == Some(
                        j as int,
                    ),
                    !found ==> find_eq(b@, 0) == find_eq(b@, j as int),
                decreases b@.len() - j + (if found {
                    0int
                } else {
                    1int
                }),
            {
                if b[j] == 0x3d {
                    found = true;
                } else {
                    j += 1;
                }
            }
            if !found {
                proof {
                    assert(find_eq(b@, 0) is None);
                    assert(parse_renames_spec(specs.take(idx as int + 1)) == Err::<
                        Seq<(Seq<u8>, Seq<u8>)>,
                        _,
                    >(ErrorKind::MalformedRename));
                    lemma_parse_renames_err_persists(specs, idx as int + 1);
                }
                return Err(ErrorKind::MalformedRename);
            }
            let dst = bytes_range(b.as_slice(), 0, j);
            let src = bytes_range(b.as_slice(), j + 1, b.len());
            proof {
                assert(dst@ =~= b@.take(j as int));
                assert(src@ =~= b@.skip(j as int + 1));
            }
            // Check for duplicates.
            let mut k: usize = 0;
            let mut dup: bool = false;
            while k < pairs.len() && !dup
                invariant
                    k <= pairs@.len(),
                    cur_pairs == pairs@.map_values(|p: (Vec<u8>, Vec<u8>)| (p.0@, p.1@)),
                    dup ==> has_dst(cur_pairs, dst@) || has_src(cur_pairs, src@),
                    !dup ==> forall|t: int|
                        0 <= t < k ==> cur_pairs[t].0 != src@ && cur_pairs[t].1 != dst@,
                decreases pairs@.len() - k + (if dup {
                    0int
                } else {
                    1int
                }),
            {
                let src_hit = bytes_eq(pairs[k].0.as_slice(), src.as_slice());
                let dst_hit = bytes_eq(pairs[k].1.as_slice(), dst.as_slice());
                if src_hit || dst_hit {
                    proof {
                        assert(cur_pairs[k as int] == (pairs@[k as int].0@, pairs@[k as int].1@));
                        if src_hit {
                            assert(has_src(cur_pairs, src@));
                        } else {
                            assert(has_dst(cur_pairs, dst@));
                        }
                    }
                    dup = true;
                } else {
                    k += 1;
                }
            }
            if dup {
                proof {
                    assert(parse_renames_spec(specs.take(idx as int + 1)) == Err::<
                        Seq<(Seq<u8>, Seq<u8>)>,
                        _,
                    >(ErrorKind::DuplicateRename));
                    lemma_parse_renames_err_persists(specs, idx as int + 1);
                }
                return Err(ErrorKind::DuplicateRename);
            }
            proof {
                assert forall|t: int| 0 <= t < cur_pairs.len() implies cur_pairs[t].0 != src@
                    && cur_pairs[t].1 != dst@ by {
                    assert(cur_pairs[t] == (pairs@[t].0@, pairs@[t].1@));
                }
                assert(!has_dst(cur_pairs, dst@) && !has_src(cur_pairs, src@));
            }
            proof {
                assert(distinct_pairs(cur_pairs));
            }
            pairs.push((src, dst));
            proof {
                let new_view = pairs@.map_values(|p: (Vec<u8>, Vec<u8>)| (p.0@, p.1@));
                assert(new_view =~= cur_pairs.push((src@, dst@)));
                assert forall|a: int, b: int| 0 <= a < b < new_view.len() implies new_view[a].0
                    != new_view[b].0 && new_view[a].1 != new_view[b].1 by {
                    assert(new_view[a] == cur_pairs.push((src@, dst@))[a]);
                    assert(new_view[b] == cur_pairs.push((src@, dst@))[b]);
                    if b < cur_pairs.len() as int {
                        assert(cur_pairs[a].0 != cur_pairs[b].0 && cur_pairs[a].1
                            != cur_pairs[b].1);
                    } else {
                        assert(new_view[b] == (src@, dst@));
                        assert(cur_pairs[a].0 != src@ && cur_pairs[a].1 != dst@);
                    }
                }
                assert(distinct_pairs(new_view));
            }
            idx += 1;
        }
        proof {
            assert(specs.take(idx as int) =~= specs);
            assert((FuncRenames { pairs })@ == pairs@.map_values(
                |p: (Vec<u8>, Vec<u8>)| (p.0@, p.1@),
            ));
        }
        Ok(FuncRenames { pairs })
    }

    /// The destination this source export name is renamed to, if any.
    pub fn dst_for(&self, name: &[u8]) -> (r: Option<&Vec<u8>>)
        requires
            self.wf(),
        ensures
            (match r {
                Some(d) => has_src(self@, name@) && d@ == dst_of(self@, name@) && has_dst(
                    self@,
                    d@,
                ),
                None => !has_src(self@, name@),
            }),
    {
        let mut k: usize = 0;
        while k < self.pairs.len()
            invariant
                self.wf(),
                k <= self.pairs@.len(),
                forall|t: int| 0 <= t < k ==> self@[t].0 != name@,
            decreases self.pairs@.len() - k,
        {
            if bytes_eq(self.pairs[k].0.as_slice(), name) {
                proof {
                    assert(self@ == self.pairs@.map_values(|p: (Vec<u8>, Vec<u8>)| (p.0@, p.1@)));
                    assert(self@.len() == self.pairs@.len());
                    assert(self@[k as int] == (self.pairs@[k as int].0@, self.pairs@[k as int].1@));
                    assert(has_src(self@, name@));
                    assert(distinct_pairs(self@));
                    let kk = choose|t: int| 0 <= t < self@.len() && self@[t].0 == name@;
                    assert(0 <= kk < self@.len() && self@[kk].0 == name@);
                    if kk < k as int {
                        assert(self@[kk].0 != self@[k as int].0);
                        assert(false);
                    } else if kk > k as int {
                        assert(self@[k as int].0 != self@[kk].0);
                        assert(false);
                    }
                    assert(self@[kk] == (self.pairs@[kk].0@, self.pairs@[kk].1@));
                }
                return Some(&self.pairs[k].1);
            }
            k += 1;
        }
        None
    }

    /// Whether this name is some rename's destination (and so suppressed
    /// where it already appears as an export name).
    pub fn is_rename_dst(&self, name: &[u8]) -> (r: bool)
        ensures
            r == has_dst(self@, name@),
    {
        let mut k: usize = 0;
        while k < self.pairs.len()
            invariant
                k <= self.pairs@.len(),
                forall|t: int| 0 <= t < k ==> self@[t].1 != name@,
            decreases self.pairs@.len() - k,
        {
            if bytes_eq(self.pairs[k].1.as_slice(), name) {
                proof {
                    assert(self@[k as int] == (self.pairs@[k as int].0@, self.pairs@[k as int].1@));
                    assert(has_dst(self@, name@));
                }
                return true;
            }
            k += 1;
        }
        false
    }
}

/// Once some prefix of the specifications fails to parse, the whole list
/// fails with the same error.
pub proof fn lemma_parse_renames_err_persists(specs: Seq<Seq<u8>>, n: int)
    requires
        0 <= n <= specs.len(),
        parse_renames_spec(specs.take(n)) is Err,
    ensures
        parse_renames_spec(specs) == parse_renames_spec(specs.take(n)),
    decreases specs.len() - n,
{
    if n == specs.len() {
        assert(specs.take(n) =~= specs);
    } else {
        assert(specs.take(n + 1).drop_last() =~= specs.take(n));
        lemma_parse_renames_err_persists(specs, n + 1);
    }
}

} // verus!
