//! Counting the RNA strings that could code for a protein.
use crate::errors::{Error, ErrorKind, Result};
use vstd::prelude::*;
use vstd::string::StringSliceAdditionalSpecFns;

verus! {

/// The modulus of the count.
pub const MODULUS: u64 = 1_000_000;

/// The number of RNA codons that code for the amino acid `p`; `None` for a
/// symbol that is no amino acid.
pub open spec fn codon_count(p: u8) -> Option<nat> {
    let c = p as char;
    if c == 'M' || c == 'W' {
        Some(1)
    } else if c == 'C' || c == 'D' || c == 'E' || c == 'F' || c == 'H' || c == 'K' || c == 'N'
        || c == 'Q' || c == 'Y' {
        Some(2)
    } else if c == 'I' {
        Some(3)
    } else if c == 'A' || c == 'G' || c == 'P' || c == 'T' || c == 'V' {
        Some(4)
    } else if c == 'L' || c == 'R' || c == 'S' {
        Some(6)
    } else {
        None
    }
}

/// Brings a running product back under the modulus once it exceeds it.
pub open spec fn reduce(x: nat) -> nat {
    if x > MODULUS {
        x % (MODULUS as nat)
    } else {
        x
    }
}

/// The running product of the codon counts of `s`, reduced after each
/// factor; `None` if some symbol is no amino acid.
pub open spec fn running_product(s: Seq<u8>) -> Option<nat>
    decreases s.len(),
{
    if s.len() == 0 {
        Some(1)
    } else {
        match (running_product(s.drop_last()), codon_count(s.last())) {
            (Some(a), Some(c)) => Some(reduce(a * c)),
            _ => None,
        }
    }
}

/// The count for a whole protein: the running product times the three stop
/// codons, and zero for the empty protein.
pub open spec fn rna_count(s: Seq<u8>) -> Option<nat> {
    if s.len() == 0 {
        Some(0)
    } else {
        match running_product(s) {
            Some(a) => Some(a * 3),
            None => None,
        }
    }
}

/// A reduced running product stays at most the modulus.
proof fn lemma_running_product_bound(s: Seq<u8>)
    ensures
        running_product(s) matches Some(a) ==> a <= MODULUS,
    decreases s.len(),
{
    if s.len() > 0 {
        lemma_running_product_bound(s.drop_last());
    }
}

/// Calculate the total number of different RNA strings modulo 1,000,000
pub fn total(protein_string: &str) -> (r: Result<u64>)
    ensures
        r is Ok <==> rna_count(protein_string.spec_bytes()) is Some,
        r is Ok ==> r->Ok_0 == rna_count(protein_string.spec_bytes())->0,
        r is Err ==> r->Err_0.spec_kind() == ErrorKind::IO,
{
    if protein_string.is_empty() {
        return Ok(0);
    }
    let bytes = protein_string.as_bytes();
    let n = bytes.len();
    let mut output: u64 = 1;
    let mut i: usize = 0;
    while i < n
        invariant
            i <= n,
            bytes@ == protein_string.spec_bytes(),
            n == bytes@.len(),
            running_product(bytes@.take(i as int)) == Some(output as nat),
            output <= MODULUS,
        decreases n - i,
    {
        proof {
            assert(bytes@.take(i + 1).drop_last() =~= bytes@.take(i as int));
        }
        let possibilities = match rna_possbilities(&bytes[i]) {
            Ok(p) => p,
            Err(e) => {
                proof {
                    lemma_invalid_stays(bytes@, i as int);
                }
                return Err(e);
            },
        };
        proof {
            assert(possibilities <= 6);
            assert(output * possibilities <= MODULUS * 6) by (nonlinear_arith)
                requires
                    output <= MODULUS,
                    possibilities <= 6,
            ;
        }
        output = output * possibilities;
        if output > MODULUS {
            output = output % MODULUS;
        }
        i += 1;
        proof {
            lemma_running_product_bound(bytes@.take(i as int));
        }
    }
    proof {
        assert(bytes@.take(n as int) =~= bytes@);
        assert(protein_string@.len() > 0);
    }
    Ok(output * 3)
}

/// Once a symbol is no amino acid, no longer prefix has a product.
proof fn lemma_invalid_stays(s: Seq<u8>, i: int)
    requires
        0 <= i < s.len(),
        codon_count(s[i]) is None,
    ensures
        running_product(s) is None,
    decreases s.len(),
{
    if i < s.len() - 1 {
        lemma_invalid_stays(s.drop_last(), i);
    }
}

/// Given a protein, return the number of possible RNA strings based on the RNA codon table
pub fn rna_possbilities(protein: &u8) -> (r: Result<u64>)
    ensures
        r is Ok <==> codon_count(*protein) is Some,
        r is Ok ==> r->Ok_0 == codon_count(*protein)->0,
        r is Err ==> r->Err_0.spec_kind() == ErrorKind::IO,
{
    match *protein as char {
        'A' => Ok(4),
        'C' => Ok(2),
        'D' => Ok(2),
        'E' => Ok(2),
        'F' => Ok(2),
        'G' => Ok(4),
        'H' => Ok(2),
        'I' => Ok(3),
        'K' => Ok(2),
        'L' => Ok(6),
        'M' => Ok(1),
        'N' => Ok(2),
        'P' => Ok(4),
        'Q' => Ok(2),
        'R' => Ok(6),
        'S' => Ok(6),
        'T' => Ok(4),
        'V' => Ok(4),
        'W' => Ok(1),
        'Y' => Ok(2),
        _ => Err(Error::new(ErrorKind::IO, "unrecognized protein base")),
    }
}

} // verus!
