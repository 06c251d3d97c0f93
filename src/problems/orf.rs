//! Open reading frames: proteins read from a start codon to a stop codon,
//! on a DNA string and on its reverse complement.
use crate::common::dna::{all_dna, dna_codon, dna_to_protein, reverse_complement_of};
use crate::common::text::{push_char, string_set};
use crate::errors::{ErrorKind, Result};
use std::collections::BTreeSet;
use vstd::prelude::*;
use vstd::string::StringSliceAdditionalSpecFns;

verus! {

/// The amino acid that a start codon gives.
pub const START_CODON: u8 = 77;

/// The codons of `s` read from its start up to and including the first stop
/// codon (`None`), or to the last whole codon; `None` at an unknown codon.
pub open spec fn reading_frame(s: Seq<u8>) -> Option<Seq<Option<u8>>>
    decreases s.len(),
{
    if s.len() < 3 {
        Some(Seq::empty())
    } else {
        match dna_codon(s.take(3)) {
            None => None,
            Some(None) => Some(seq![None]),
            Some(Some(a)) => match reading_frame(s.skip(3)) {
                Some(rest) => Some(seq![Some(a)] + rest),
                None => None,
            },
        }
    }
}

/// The positions in `s` from `i` on where a start codon begins, or `None`
/// if some three symbols from `i` on are no codon.
pub open spec fn starts_from(s: Seq<u8>, i: int) -> Option<Seq<usize>>
    decreases s.len() - i,
{
    if i < 0 || i + 3 > s.len() {
        Some(Seq::empty())
    } else {
        match (dna_codon(s.subrange(i, i + 3)), starts_from(s, i + 1)) {
            (Some(c), Some(rest)) => if c == Some(START_CODON) {
                Some(seq![i as usize] + rest)
            } else {
                Some(rest)
            },
            _ => None,
        }
    }
}

/// A reading frame that ends at a stop codon, as the protein it codes for.
pub open spec fn protein_of(frame: Seq<Option<u8>>) -> Option<Seq<char>> {
    if frame.len() > 0 && frame.last() is None {
        Some(frame.drop_last().map_values(|a: Option<u8>| a->0 as char))
    } else {
        None
    }
}

/// The proteins that start at `starts[k..]` in `s`, in order; `None` if a
/// frame meets an unknown codon.
pub open spec fn proteins_at(s: Seq<u8>, starts: Seq<usize>, k: int) -> Option<Seq<Seq<char>>>
    decreases starts.len() - k,
{
    if k < 0 || k >= starts.len() {
        Some(Seq::empty())
    } else {
        match (reading_frame(s.skip(starts[k] as int)), proteins_at(s, starts, k + 1)) {
            (Some(frame), Some(rest)) => match protein_of(frame) {
                Some(p) => Some(seq![p] + rest),
                None => Some(rest),
            },
            _ => None,
        }
    }
}

/// Every protein of `s` that runs from a start codon to a stop codon.
pub open spec fn proteins_of(s: Seq<u8>) -> Option<Seq<Seq<char>>> {
    match starts_from(s, 0) {
        Some(starts) => proteins_at(s, starts, 0),
        None => None,
    }
}

/// The proteins of both strands of a DNA string.
pub open spec fn both_strands(s: Seq<u8>) -> Option<Seq<Seq<char>>> {
    match (proteins_of(s), proteins_of(reverse_complement_of(s))) {
        (Some(a), Some(b)) => Some(a + b),
        _ => None,
    }
}

/// The proteins of both strands of `dna_string`.
pub fn run_workflow(dna_string: &str) -> (r: Result<BTreeSet<String>>)
    ensures
        ({
            let s = dna_string.spec_bytes();
            &&& r is Ok <==> all_dna(s) && both_strands(s) is Some
            &&& r is Ok ==> r->Ok_0@.map(|x: String| x@) == both_strands(s)->0.to_set()
        }),
{
    let bytes = dna_string.as_bytes();
    let mut output = match proteins(bytes) {
        Ok(p) => p,
        Err(e) => return Err(e),
    };
    let rc = match crate::common::dna::reverse_complement(bytes) {
        Ok(rc) => rc,
        Err(e) => {
            return Err(e);
        },
    };
    let mut other = match proteins(rc.as_slice()) {
        Ok(p) => p,
        Err(e) => return Err(e),
    };
    let ghost a = output@.map_values(|x: String| x@);
    let ghost b = other@.map_values(|x: String| x@);
    output.append(&mut other);
    proof {
        assert(output@.map_values(|x: String| x@) =~= a + b);
    }
    Ok(string_set(output))
}

/// The proteins of `dna_string`, as a set.
pub fn find_all_proteins(dna_string: &[u8]) -> (r: Result<BTreeSet<String>>)
    ensures
        r is Ok <==> proteins_of(dna_string@) is Some,
        r is Ok ==> r->Ok_0@.map(|x: String| x@) == proteins_of(dna_string@)->0.to_set(),
        r is Err ==> r->Err_0.spec_kind() == ErrorKind::UnrecognizedCodon,
{
    match proteins(dna_string) {
        Ok(p) => Ok(string_set(p)),
        Err(e) => Err(e),
    }
}

/// The proteins of `dna_string`, in the order of their start codons.
fn proteins(dna_string: &[u8]) -> (r: Result<Vec<String>>)
    ensures
        r is Ok <==> proteins_of(dna_string@) is Some,
        r is Ok ==> r->Ok_0@.map_values(|x: String| x@) == proteins_of(dna_string@)->0,
        r is Err ==> r->Err_0.spec_kind() == ErrorKind::UnrecognizedCodon,
{
    let starts = match find_starts(dna_string) {
        Ok(s) => s,
        Err(e) => return Err(e),
    };
    let ghost s = dna_string@;
    let mut output: Vec<String> = Vec::new();
    let mut k: usize = 0;
    while k < starts.len()
        invariant
            s == dna_string@,
            starts_from(s, 0) == Some(starts@),
            forall|t: int| 0 <= t < starts@.len() ==> #[trigger] starts@[t] <= s.len(),
            k <= starts@.len(),
            proteins_of(s) == match proteins_at(s, starts@, k as int) {
                Some(rest) => Some(output@.map_values(|x: String| x@) + rest),
                None => None::<Seq<Seq<char>>>,
            },
        decreases starts@.len() - k,
    {
        let start = starts[k];
        let protein = match get_protein(dna_string, start) {
            Ok(p) => p,
            Err(e) => return Err(e),
        };
        let ghost before = output@.map_values(|x: String| x@);
        let n = protein.len();
        if n > 0 && protein[n - 1].is_none() {
            let mut text = String::new();
            let mut j: usize = 0;
            while j < n - 1
                invariant
                    n == protein@.len(),
                    n > 0,
                    protein@.last() is None,
                    reading_frame(s.skip(start as int)) == Some(protein@),
                    j <= n - 1,
                    text@ == protein@.take(j as int).map_values(|a: Option<u8>| a->0 as char),
                decreases n - 1 - j,
            {
                let a = match protein[j] {
                    Some(a) => a,
                    None => 0,
                };
                proof {
                    lemma_frame_stops_last(s.skip(start as int), j as int);
                }
                push_char(&mut text, a as char);
                j += 1;
                proof {
                    assert(text@ =~= protein@.take(j as int).map_values(
                        |a: Option<u8>| a->0 as char,
                    ));
                }
            }
            proof {
                assert(protein@.take(n - 1) =~= protein@.drop_last());
            }
            output.push(text);
            proof {
                match proteins_at(s, starts@, k + 1) {
                    Some(rest) => {
                        assert(output@.map_values(|x: String| x@) + rest =~= before + (seq![
                            text@,
                        ] + rest));
                    },
                    None => {},
                }
            }
        }
        k += 1;
    }
    proof {
        assert(output@.map_values(|x: String| x@) + Seq::<Seq<char>>::empty() =~= output@.map_values(
            |x: String| x@,
        ));
    }
    Ok(output)
}

/// Before its last codon a reading frame holds amino acids only.
proof fn lemma_frame_stops_last(s: Seq<u8>, j: int)
    requires
        reading_frame(s) matches Some(f) && 0 <= j < f.len() - 1,
    ensures
        reading_frame(s)->0[j] is Some,
    decreases s.len(),
{
    if j > 0 {
        lemma_frame_stops_last(s.skip(3), j - 1);
    }
}

/// The codons read from `start`: up to and including the first stop codon,
/// or to the last whole codon.
pub fn get_protein(dna_string: &[u8], start: usize) -> (r: Result<Vec<Option<u8>>>)
    requires
        start <= dna_string@.len(),
    ensures
        r is Ok <==> reading_frame(dna_string@.skip(start as int)) is Some,
        r is Ok ==> r->Ok_0@ == reading_frame(dna_string@.skip(start as int))->0,
        r is Err ==> r->Err_0.spec_kind() == ErrorKind::UnrecognizedCodon,
{
    let n = dna_string.len();
    let mut protein: Vec<Option<u8>> = Vec::new();
    let mut i: usize = start;
    while n - i >= 3
        invariant
            start <= i <= n,
            n == dna_string@.len(),
            reading_frame(dna_string@.skip(start as int)) == match reading_frame(
                dna_string@.skip(i as int),
            ) {
                Some(rest) => Some(protein@ + rest),
                None => None::<Seq<Option<u8>>>,
            },
        decreases n - i,
    {
        let codon = vstd::slice::slice_subrange(dna_string, i, i + 3);
        let ghost rest = dna_string@.skip(i as int);
        proof {
            assert(codon@ =~= rest.take(3));
            assert(rest.skip(3) =~= dna_string@.skip(i + 3));
        }
        let ghost before = protein@;
        let protein_base = match dna_to_protein(codon) {
            Ok(p) => p,
            Err(e) => return Err(e),
        };
        protein.push(protein_base);
        if protein_base.is_none() {
            proof {
                assert(before + seq![None::<u8>] =~= protein@);
            }
            return Ok(protein);
        }
        proof {
            match reading_frame(dna_string@.skip(i + 3)) {
                Some(t) => {
                    assert(protein@ + t =~= before + (seq![protein_base] + t));
                },
                None => {},
            }
        }
        i += 3;
    }
    proof {
        assert(protein@ + Seq::<Option<u8>>::empty() =~= protein@);
    }
    Ok(protein)
}

/// The positions of the start codons.
pub fn find_starts(dna_string: &[u8]) -> (r: Result<Vec<usize>>)
    ensures
        r is Ok <==> starts_from(dna_string@, 0) is Some,
        r is Ok ==> Some(r->Ok_0@) == starts_from(dna_string@, 0),
        r is Ok ==> forall|t: int|
            0 <= t < r->Ok_0@.len() ==> #[trigger] r->Ok_0@[t] + 3 <= dna_string@.len(),
        r is Err ==> r->Err_0.spec_kind() == ErrorKind::UnrecognizedCodon,
{
    let n = dna_string.len();
    let mut starts: Vec<usize> = Vec::new();
    if n < 3 {
        return Ok(starts);
    }
    let mut i: usize = 0;
    while n - i >= 3
        invariant
            i <= n,
            n == dna_string@.len(),
            n >= 3,
            forall|t: int| 0 <= t < starts@.len() ==> #[trigger] starts@[t] + 3 <= n,
            starts_from(dna_string@, 0) == match starts_from(dna_string@, i as int) {
                Some(rest) => Some(starts@ + rest),
                None => None::<Seq<usize>>,
            },
        decreases n - i,
    {
        let codon = vstd::slice::slice_subrange(dna_string, i, i + 3);
        proof {
            assert(codon@ =~= dna_string@.subrange(i as int, i + 3));
        }
        let ghost before = starts@;
        let p = match dna_to_protein(codon) {
            Ok(p) => p,
            Err(e) => {
                return Err(e);
            },
        };
        if p == Some(START_CODON) {
            starts.push(i);
        }
        proof {
            match starts_from(dna_string@, i + 1) {
                Some(t) => {
                    if p == Some(START_CODON) {
                        assert(starts@ + t =~= before + (seq![i] + t));
                    }
                },
                None => {},
            }
        }
        i += 1;
    }
    proof {
        assert(starts@ + Seq::<usize>::empty() =~= starts@);
    }
    Ok(starts)
}

} // verus!
