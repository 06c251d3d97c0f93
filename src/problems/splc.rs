//! Removing introns from a DNA string and translating what is left.
use crate::common::dna::{dna_codon, dna_to_protein};
use crate::common::text::{push_char, remove_all, remove_matches};
use crate::errors::{ErrorKind, Result};
use vstd::prelude::*;
use vstd::string::StringSliceAdditionalSpecFns;
use vstd::utf8::encode_utf8;

verus! {

/// `s` with every match of each piece of `introns` taken out, one piece after
/// the other.
pub open spec fn spliced(s: Seq<char>, introns: Seq<Seq<char>>) -> Seq<char>
    decreases introns.len(),
{
    if introns.len() == 0 {
        s
    } else {
        remove_all(spliced(s, introns.drop_last()), introns.last())
    }
}

/// The protein that the whole codons of `s` code for, read up to the first
/// stop codon; a short group at the end is not read; `None` where a codon
/// read is unknown.
pub open spec fn dna_translation(s: Seq<u8>) -> Option<Seq<char>>
    decreases s.len(),
{
    if s.len() < 3 {
        Some(Seq::empty())
    } else {
        match dna_codon(s.take(3)) {
            None => None,
            Some(None) => Some(Seq::empty()),
            Some(Some(a)) => match dna_translation(s.skip(3)) {
                Some(t) => Some(seq![a as char] + t),
                None => None,
            },
        }
    }
}

/// Translation stops at the first stop codon: nothing after it is read, and
/// each amino acid codon before it gives one symbol.
pub proof fn lemma_dna_translation_stops(p: Seq<u8>, stop: Seq<u8>, rest: Seq<u8>)
    requires
        p.len() % 3 == 0,
        dna_codon(stop) == Some(None::<u8>),
    ensures
        dna_translation(p + stop + rest) == dna_translation(p + stop),
        (forall|k: int|
            0 <= k < p.len() / 3 ==> #[trigger] dna_codon(p.subrange(3 * k, 3 * k + 3)) matches Some(
                Some(_),
            )) ==> (dna_translation(p + stop) matches Some(t) && t.len() == p.len() / 3),
    decreases p.len(),
{
    assert(stop.len() == 3);
    if p.len() == 0 {
        assert(p + stop + rest =~= stop + rest);
        assert(p + stop =~= stop);
        assert((stop + rest).take(3) =~= stop);
        assert(stop.take(3) =~= stop);
    } else {
        let q = p.skip(3);
        assert((p + stop + rest).take(3) =~= p.take(3));
        assert((p + stop).take(3) =~= p.take(3));
        assert((p + stop + rest).skip(3) =~= q + stop + rest);
        assert((p + stop).skip(3) =~= q + stop);
        lemma_dna_translation_stops(q, stop, rest);
        if forall|k: int|
            0 <= k < p.len() / 3 ==> #[trigger] dna_codon(p.subrange(3 * k, 3 * k + 3)) matches Some(
                Some(_),
            ) {
            assert(p.take(3) =~= p.subrange(3 * 0int, 3 * 0int + 3));
            assert forall|k: int| 0 <= k < q.len() / 3 implies #[trigger] dna_codon(
                q.subrange(3 * k, 3 * k + 3),
            ) matches Some(Some(_)) by {
                assert(q.subrange(3 * k, 3 * k + 3) =~= p.subrange(3 * (k + 1), 3 * (k + 1) + 3));
            }
        }
    }
}

/// The codon of `d` at index `i`.
pub open spec fn codon_at(d: Seq<u8>, i: int) -> Seq<u8> {
    d.subrange(3 * i, 3 * i + 3)
}

/// Translation reads codon by codon up to the first stop codon, or up to
/// the last whole codon where there is none: when the codons before index
/// `j` are amino acid codons and codon `j` is a stop codon (or `j` is the
/// number of whole codons), the protein has `j` symbols, the `i`-th coded by
/// codon `i`.
pub proof fn lemma_dna_translation_codons(d: Seq<u8>, j: int)
    requires
        0 <= j <= d.len() / 3,
        forall|i: int| 0 <= i < j ==> #[trigger] dna_codon(codon_at(d, i)) matches Some(Some(_)),
        j == d.len() / 3 || dna_codon(codon_at(d, j)) == Some(None::<u8>),
    ensures
        dna_translation(d) matches Some(t) && t.len() == j && forall|i: int|
            0 <= i < j ==> t[i] == ((dna_codon(codon_at(d, i))->0)->0) as char,
    decreases d.len(),
{
    if d.len() >= 3 {
        assert(d.take(3) =~= codon_at(d, 0));
        if j > 0 {
            let e = d.skip(3);
            assert(e.len() / 3 == d.len() / 3 - 1);
            assert forall|i: int| 0 <= i < j - 1 implies #[trigger] dna_codon(codon_at(e, i)) matches Some(
                Some(_),
            ) by {
                assert(codon_at(e, i) =~= codon_at(d, i + 1));
            }
            if j - 1 < e.len() / 3 {
                assert(codon_at(e, j - 1) =~= codon_at(d, j));
            }
            lemma_dna_translation_codons(e, j - 1);
            let t = dna_translation(d)->0;
            let t2 = dna_translation(e)->0;
            assert forall|i: int| 0 <= i < j implies t[i] == ((dna_codon(codon_at(d, i))->0)->0) as char by {
                if i > 0 {
                    assert(codon_at(e, i - 1) =~= codon_at(d, i));
                    assert(t[i] == t2[i - 1]);
                }
            }
        }
    }
}

/// Removes every intron from the DNA string, one after the other.
pub fn splice(dna_string: &str, substrings: &[&str]) -> (r: String)
    ensures
        r@ == spliced(dna_string@, substrings@.map_values(|p: &str| p@)),
{
    let mut output = dna_string.to_owned();
    let mut i: usize = 0;
    while i < substrings.len()
        invariant
            i <= substrings@.len(),
            output@ == spliced(dna_string@, substrings@.map_values(|p: &str| p@).take(i as int)),
        decreases substrings@.len() - i,
    {
        output = remove_matches(output.as_str(), substrings[i]);
        i += 1;
        proof {
            let all = substrings@.map_values(|p: &str| p@);
            assert(all.take(i as int).drop_last() =~= all.take(i - 1));
        }
    }
    proof {
        assert(substrings@.map_values(|p: &str| p@).take(i as int) =~= substrings@.map_values(
            |p: &str| p@,
        ));
    }
    output
}

/// Removes the introns and translates what is left.
pub fn splice_and_translate(dna_string: &str, substrings: &[&str]) -> (r: Result<String>)
    ensures
        ({
            let coding = encode_utf8(spliced(dna_string@, substrings@.map_values(|p: &str| p@)));
            &&& r is Ok <==> dna_translation(coding) is Some
            &&& r is Ok ==> r->Ok_0@ == dna_translation(coding)->0
            &&& r is Err ==> r->Err_0.spec_kind() == ErrorKind::UnrecognizedCodon
        }),
{
    let spliced = splice(dna_string, substrings);
    let bytes = spliced.as_str().as_bytes();
    let n = bytes.len();
    let mut translated = String::new();
    let mut i: usize = 0;
    proof {
        assert(bytes@.skip(0) =~= bytes@);
        match dna_translation(bytes@) {
            Some(t) => assert(Seq::<char>::empty() + t =~= t),
            None => {},
        }
    }
    while n - i >= 3
        invariant
            bytes@ == encode_utf8(spliced@),
            spliced@ == self::spliced(dna_string@, substrings@.map_values(|p: &str| p@)),
            i <= n,
            n == bytes@.len(),
            dna_translation(bytes@) == match dna_translation(bytes@.skip(i as int)) {
                Some(t) => Some(translated@ + t),
                None => None::<Seq<char>>,
            },
        decreases n - i,
    {
        let chunk = vstd::slice::slice_subrange(bytes, i, i + 3);
        let ghost rest = bytes@.skip(i as int);
        proof {
            assert(chunk@ =~= rest.take(3));
            assert(rest.skip(3) =~= bytes@.skip(i + 3));
        }
        let ghost before = translated@;
        match dna_to_protein(chunk) {
            Ok(Some(base)) => {
                push_char(&mut translated, base as char);
                proof {
                    match dna_translation(bytes@.skip(i + 3)) {
                        Some(t) => {
                            assert(translated@ + t =~= before + (seq![base as char] + t));
                        },
                        None => {},
                    }
                }
            },
            Ok(None) => {
                proof {
                    assert(translated@ + Seq::<char>::empty() =~= translated@);
                }
                return Ok(translated);
            },
            Err(e) => return Err(e),
        }
        i += 3;
    }
    proof {
        assert(translated@ + Seq::<char>::empty() =~= translated@);
    }
    Ok(translated)
}

} // verus!
