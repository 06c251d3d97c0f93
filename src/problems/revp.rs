//! Locating restriction sites: stretches that equal their reverse complement.
use crate::common::dna::{all_dna, reverse_complement, reverse_complement_of};
use crate::errors::{ErrorKind, Result};
use vstd::prelude::*;
use vstd::string::StringSliceAdditionalSpecFns;

verus! {

/// The shortest site looked for.
pub const MIN_SITE: usize = 4;

/// The longest site looked for.
pub const MAX_SITE: usize = 12;

/// A restriction site: where it starts, counted from one, and its length.
#[derive(Debug, Clone, Copy, PartialEq, Eq, Structural)]
pub struct Output {
    pub position: usize,
    pub length: usize,
}

impl Output {
    /// A site at `position` of `length` symbols.
    pub fn new(position: usize, length: usize) -> (r: Self)
        ensures
            r == (Output { position, length }),
    {
        Self { position, length }
    }
}

/// The sites of `size` symbols in `d` that start at `i` or later, or `None`
/// if a stretch of that size from `i` on holds a symbol that is no base.
pub open spec fn sites_of_size(d: Seq<u8>, size: int, i: int) -> Option<Seq<Output>>
    decreases d.len() - i,
{
    if i < 0 || size <= 0 || i + size > d.len() {
        Some(Seq::empty())
    } else {
        let w = d.subrange(i, i + size);
        match sites_of_size(d, size, i + 1) {
            None => None,
            Some(rest) => if !all_dna(w) {
                None
            } else if reverse_complement_of(w) == w {
                Some(seq![Output { position: (i + 1) as usize, length: size as usize }] + rest)
            } else {
                Some(rest)
            },
        }
    }
}

/// The sites of every size from `size` up to twelve, by size.
pub open spec fn sites_from_size(d: Seq<u8>, size: int) -> Option<Seq<Output>>
    decreases 13 - size,
{
    if size < 4 || size > 12 {
        Some(Seq::empty())
    } else {
        match (sites_of_size(d, size, 0), sites_from_size(d, size + 1)) {
            (Some(a), Some(b)) => Some(a + b),
            _ => None,
        }
    }
}

/// Locate restriction sites
pub fn locate(dna_string: &str) -> (r: Result<Vec<Output>>)
    ensures
        r is Ok <==> sites_from_size(dna_string.spec_bytes(), MIN_SITE as int) is Some,
        r is Ok ==> r->Ok_0@ == sites_from_size(dna_string.spec_bytes(), MIN_SITE as int)->0,
        r is Err ==> r->Err_0.spec_kind() == ErrorKind::InvalidSymbol,
{
    let d = dna_string.as_bytes();
    let n = d.len();
    let mut outputs: Vec<Output> = Vec::new();
    let mut size: usize = MIN_SITE;
    while size <= MAX_SITE
        invariant
            d@ == dna_string.spec_bytes(),
            n == d@.len(),
            MIN_SITE <= size <= MAX_SITE + 1,
            sites_from_size(d@, MIN_SITE as int) == match sites_from_size(d@, size as int) {
                Some(rest) => Some(outputs@ + rest),
                None => None::<Seq<Output>>,
            },
        decreases MAX_SITE + 1 - size,
    {
        let ghost at_size = outputs@;
        let mut i: usize = 0;
        while i < n && n - i >= size
            invariant
                d@ == dna_string.spec_bytes(),
                n == d@.len(),
                MIN_SITE <= size <= MAX_SITE,
                i <= n,
                sites_from_size(d@, MIN_SITE as int) == match sites_from_size(d@, size as int) {
                    Some(rest) => Some(at_size + rest),
                    None => None::<Seq<Output>>,
                },
                sites_from_size(d@, size as int) == match (
                    sites_of_size(d@, size as int, 0),
                    sites_from_size(d@, size + 1),
                ) {
                    (Some(a), Some(b)) => Some(a + b),
                    _ => None::<Seq<Output>>,
                },
                sites_of_size(d@, size as int, 0) == match sites_of_size(d@, size as int, i as int) {
                    Some(rest) => Some(outputs@.subrange(at_size.len() as int, outputs@.len() as int) + rest),
                    None => None::<Seq<Output>>,
                },
                at_size.len() <= outputs@.len(),
                outputs@.subrange(0, at_size.len() as int) == at_size,
            decreases n - i,
        {
            let substring = vstd::slice::slice_subrange(d, i, i + size);
            proof {
                assert(substring@ =~= d@.subrange(i as int, i + size));
            }
            let rc = match reverse_complement(substring) {
                Ok(rc) => rc,
                Err(e) => {
                    proof {
                        lemma_sites_invalid(d@, size as int, i as int);
                    }
                    return Err(e);
                },
            };
            let ghost before = outputs@;
            if slices_equal(substring, rc.as_slice()) {
                outputs.push(Output::new(i + 1, size));
            }
            proof {
                assert(outputs@.subrange(0, at_size.len() as int) =~= at_size);
                match sites_of_size(d@, size as int, i + 1) {
                    Some(rest) => {
                        if substring@ == rc@ {
                            assert(outputs@.subrange(at_size.len() as int, outputs@.len() as int) + rest
                                =~= before.subrange(at_size.len() as int, before.len() as int) + (seq![
                                Output { position: (i + 1) as usize, length: size },
                            ] + rest));
                        } else {
                            assert(outputs@ == before);
                        }
                    },
                    None => {},
                }
            }
            i += 1;
        }
        proof {
            let mine = outputs@.subrange(at_size.len() as int, outputs@.len() as int);
            assert(mine + Seq::<Output>::empty() =~= mine);
            assert(at_size + mine =~= outputs@);
            match sites_from_size(d@, size + 1) {
                Some(b) => {
                    assert(at_size + (mine + b) =~= outputs@ + b);
                },
                None => {},
            }
        }
        size += 1;
    }
    proof {
        assert(outputs@ + Seq::<Output>::empty() =~= outputs@);
    }
    Ok(outputs)
}

/// A stretch with a symbol that is no base makes the whole search fail.
proof fn lemma_sites_invalid(d: Seq<u8>, size: int, i: int)
    requires
        0 <= i,
        i + size <= d.len(),
        size > 0,
        !all_dna(d.subrange(i, i + size)),
    ensures
        sites_of_size(d, size, 0) is None,
    decreases i,
{
    if i > 0 {
        lemma_sites_none_back(d, size, i - 1);
    }
}

/// A failure from `i + 1` on is a failure from `i` on, back to the start.
proof fn lemma_sites_none_back(d: Seq<u8>, size: int, i: int)
    requires
        0 <= i,
        i + 1 + size <= d.len(),
        size > 0,
        sites_of_size(d, size, i + 1) is None,
    ensures
        sites_of_size(d, size, 0) is None,
    decreases i,
{
    if i > 0 {
        lemma_sites_none_back(d, size, i - 1);
    }
}

/// The two byte slices hold the same bytes.
fn slices_equal(a: &[u8], b: &[u8]) -> (r: bool)
    ensures
        r == (a@ == b@),
{
    if a.len() != b.len() {
        return false;
    }
    let mut k: usize = 0;
    while k < a.len()
        invariant
            a@.len() == b@.len(),
            k <= a@.len(),
            forall|t: int| 0 <= t < k ==> a@[t] == b@[t],
        decreases a@.len() - k,
    {
        if a[k] != b[k] {
            return false;
        }
        k += 1;
    }
    proof {
        assert(a@ =~= b@);
    }
    true
}

} // verus!
