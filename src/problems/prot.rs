//! Translating RNA into protein.
use crate::common::dna::{dna_codon, dna_to_protein, BASE_T, BASE_U};
use crate::common::text::push_char;
use crate::errors::{Error, ErrorKind, Result};
use vstd::prelude::*;
use vstd::slice::slice_subrange;

verus! {

/// An RNA base read as the DNA base it stands for.
pub open spec fn rna_as_dna(b: u8) -> u8 {
    if b == BASE_U {
        BASE_T
    } else {
        b
    }
}

/// What an RNA codon means: the DNA table read with `U` for `T`; a group
/// holding `T` is no RNA codon.
pub open spec fn rna_codon(c: Seq<u8>) -> Option<Option<u8>> {
    if forall|i: int| 0 <= i < c.len() ==> c[i] != BASE_T {
        dna_codon(c.map_values(|b: u8| rna_as_dna(b)))
    } else {
        None
    }
}

/// `p` before the text in `o`, if there is one.
pub open spec fn prepend(p: Seq<char>, o: Option<Seq<char>>) -> Option<Seq<char>> {
    match o {
        Some(t) => Some(p + t),
        None => None,
    }
}

/// The protein that `s` codes for, read codon by codon up to the first stop
/// codon; `None` where a group read before it is no codon (a short group
/// at the end included).
pub open spec fn rna_translation(s: Seq<u8>) -> Option<Seq<char>>
    decreases s.len(),
{
    if s.len() == 0 {
        Some(Seq::empty())
    } else {
        let n = if s.len() < 3 {
            s.len() as int
        } else {
            3
        };
        match rna_codon(s.take(n)) {
            None => None,
            Some(None) => Some(Seq::empty()),
            Some(Some(a)) => prepend(seq![a as char], rna_translation(s.skip(n))),
        }
    }
}

/// Translate RNA string to protein
pub fn translate(rna_string: &[u8]) -> (r: Result<String>)
    ensures
        r is Ok <==> rna_translation(rna_string@) is Some,
        r is Ok ==> r->Ok_0@ == rna_translation(rna_string@)->0,
        r is Err ==> r->Err_0.spec_kind() == ErrorKind::UnrecognizedCodon,
{
    let n = rna_string.len();
    let mut protein = String::new();
    let mut i: usize = 0;
    proof {
        assert(rna_string@.skip(0) =~= rna_string@);
        match rna_translation(rna_string@) {
            Some(t) => assert(Seq::<char>::empty() + t =~= t),
            None => {},
        }
    }
    while i < n
        invariant
            i <= n,
            n == rna_string@.len(),
            rna_translation(rna_string@) == prepend(
                protein@,
                rna_translation(rna_string@.skip(i as int)),
            ),
        decreases n - i,
    {
        let end = if n - i < 3 {
            n
        } else {
            i + 3
        };
        let codon = slice_subrange(rna_string, i, end);
        let ghost rest = rna_string@.skip(i as int);
        proof {
            assert(codon@ =~= rest.take(end - i));
            assert(rest.skip(end - i) =~= rna_string@.skip(end as int));
        }
        match translate_codon(codon) {
            Ok(Some(x)) => {
                let ghost before = protein@;
                push_char(&mut protein, x as char);
                proof {
                    assert(rna_translation(rna_string@) == prepend(
                        protein@,
                        rna_translation(rna_string@.skip(end as int)),
                    )) by {
                        match rna_translation(rna_string@.skip(end as int)) {
                            Some(t) => {
                                assert(protein@ + t =~= before + (seq![x as char] + t));
                            },
                            None => {},
                        }
                    }
                }
            },
            Ok(None) => {
                proof {
                    assert(protein@ + Seq::<char>::empty() =~= protein@);
                }
                return Ok(protein);
            },
            Err(e) => {
                return Err(e);
            },
        }
        i = end;
    }
    proof {
        assert(rna_string@.skip(i as int) =~= Seq::<u8>::empty());
        assert(protein@ + Seq::<char>::empty() =~= protein@);
    }
    Ok(protein)
}

/// Translate Codon to Protein
pub fn translate_codon(codon: &[u8]) -> (r: Result<Option<u8>>)
    ensures
        rna_codon(codon@) is Some <==> r is Ok,
        r is Ok ==> Some(r->Ok_0) == rna_codon(codon@),
        r is Err ==> r->Err_0.spec_kind() == ErrorKind::UnrecognizedCodon,
{
    let n = codon.len();
    let mut dna: Vec<u8> = Vec::with_capacity(n);
    let mut i: usize = 0;
    while i < n
        invariant
            i <= n,
            n == codon@.len(),
            forall|j: int| 0 <= j < i ==> codon@[j] != BASE_T,
            dna@ =~= codon@.take(i as int).map_values(|b: u8| rna_as_dna(b)),
        decreases n - i,
    {
        let b = codon[i];
        if b == BASE_T {
            return Err(Error::new(ErrorKind::UnrecognizedCodon, "invalid codon"));
        }
        dna.push(if b == BASE_U {
            BASE_T
        } else {
            b
        });
        i += 1;
        proof {
            assert(dna@ =~= codon@.take(i as int).map_values(|b: u8| rna_as_dna(b)));
        }
    }
    proof {
        assert(codon@.take(n as int) =~= codon@);
    }
    dna_to_protein(dna.as_slice())
}

/// Every codon of `p`, read from its start, is an amino acid codon.
pub open spec fn all_amino(p: Seq<u8>) -> bool {
    forall|k: int|
        0 <= k < p.len() / 3 ==> #[trigger] rna_codon(p.subrange(3 * k, 3 * k + 3)) matches Some(
            Some(_),
        )
}

/// Translation stops at the first stop codon: nothing after it is read, and
/// each amino acid codon before it gives one symbol.
pub proof fn lemma_translation_stops(p: Seq<u8>, stop: Seq<u8>, rest: Seq<u8>)
    requires
        p.len() % 3 == 0,
        rna_codon(stop) == Some(None::<u8>),
    ensures
        rna_translation(p + stop + rest) == rna_translation(p + stop),
        all_amino(p) ==> (rna_translation(p + stop) matches Some(t) && t.len() == p.len() / 3),
    decreases p.len(),
{
    assert(stop.len() == 3);
    if p.len() == 0 {
        assert(p + stop + rest =~= stop + rest);
        assert(p + stop =~= stop);
        assert((stop + rest).take(3) =~= stop);
        assert(stop.take(3) =~= stop);
    } else {
        let q = p.skip(3);
        assert((p + stop + rest).take(3) =~= p.take(3));
        assert((p + stop).take(3) =~= p.take(3));
        assert((p + stop + rest).skip(3) =~= q + stop + rest);
        assert((p + stop).skip(3) =~= q + stop);
        lemma_translation_stops(q, stop, rest);
        if all_amino(p) {
            assert(p.take(3) =~= p.subrange(0, 3));
            assert(rna_codon(p.subrange(3 * 0int, 3 * 0int + 3)) matches Some(Some(_)));
            assert forall|k: int| 0 <= k < q.len() / 3 implies #[trigger] rna_codon(
                q.subrange(3 * k, 3 * k + 3),
            ) matches Some(Some(_)) by {
                assert(q.subrange(3 * k, 3 * k + 3) =~= p.subrange(3 * (k + 1), 3 * (k + 1) + 3));
            }
        }
    }
}

} // verus!
