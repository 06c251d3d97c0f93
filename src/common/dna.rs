//! Nucleotide transforms: complement, reverse complement, codon translation.
use crate::errors::{Error, ErrorKind, Result};
use vstd::prelude::*;

verus! {

/// The symbol `A`.
pub const BASE_A: u8 = 65;

/// The symbol `C`.
pub const BASE_C: u8 = 67;

/// The symbol `G`.
pub const BASE_G: u8 = 71;

/// The symbol `T`.
pub const BASE_T: u8 = 84;

/// The symbol `U`, which stands for `T` in RNA.
pub const BASE_U: u8 = 85;

/// One of the four DNA bases `A`, `C`, `G`, `T`.
pub open spec fn is_dna_base(b: u8) -> bool {
    b == BASE_A || b == BASE_C || b == BASE_G || b == BASE_T
}

/// Every symbol of `s` is a DNA base.
pub open spec fn all_dna(s: Seq<u8>) -> bool {
    forall|i: int| 0 <= i < s.len() ==> is_dna_base(#[trigger] s[i])
}

/// The Watson-Crick partner of a DNA base (other symbols map to themselves).
pub open spec fn base_partner(b: u8) -> u8 {
    if b == BASE_A {
        BASE_T
    } else if b == BASE_T {
        BASE_A
    } else if b == BASE_C {
        BASE_G
    } else if b == BASE_G {
        BASE_C
    } else {
        b
    }
}

/// The reverse complement of `s`: read backwards, each base replaced by its partner.
pub open spec fn reverse_complement_of(s: Seq<u8>) -> Seq<u8> {
    Seq::new(s.len(), |i: int| base_partner(s[s.len() - 1 - i]))
}

/// Complement a DNA base
pub fn complement(base: &u8) -> (r: Result<u8>)
    ensures
        is_dna_base(*base) <==> r is Ok,
        r is Ok ==> r->Ok_0 == base_partner(*base),
        r is Err ==> r->Err_0.spec_kind() == ErrorKind::InvalidSymbol,
{
    let b = *base;
    if b == BASE_A {
        Ok(BASE_T)
    } else if b == BASE_T {
        Ok(BASE_A)
    } else if b == BASE_C {
        Ok(BASE_G)
    } else if b == BASE_G {
        Ok(BASE_C)
    } else {
        Err(Error::new(ErrorKind::InvalidSymbol, "not a dna base"))
    }
}

/// Reverse complement a dna string
pub fn reverse_complement(dna_string: &[u8]) -> (r: Result<Vec<u8>>)
    ensures
        all_dna(dna_string@) <==> r is Ok,
        r is Ok ==> r->Ok_0@ == reverse_complement_of(dna_string@),
        r is Err ==> r->Err_0.spec_kind() == ErrorKind::InvalidSymbol,
{
    let n = dna_string.len();
    let mut out: Vec<u8> = Vec::with_capacity(n);
    let mut k: usize = 0;
    while k < n
        invariant
            k <= n,
            n == dna_string@.len(),
            out@.len() == k,
            forall|j: int| 0 <= j < k ==> is_dna_base(#[trigger] dna_string@[n - 1 - j]),
            forall|j: int|
                0 <= j < k ==> #[trigger] out@[j] == base_partner(dna_string@[n - 1 - j]),
        decreases n - k,
    {
        match complement(&dna_string[n - 1 - k]) {
            Ok(c) => out.push(c),
            Err(e) => return Err(e),
        }
        k += 1;
    }
    proof {
        assert forall|i: int| 0 <= i < n implies is_dna_base(#[trigger] dna_string@[i]) by {
            let j = n - 1 - i;
            assert(is_dna_base(dna_string@[n - 1 - j]));
        }
        assert(out@ =~= reverse_complement_of(dna_string@));
    }
    Ok(out)
}

/// A symbol read as a character.
pub open spec fn sym(b: u8) -> char {
    b as char
}

/// Third codon position is `T` or `C` (a pyrimidine).
pub open spec fn pyrimidine(z: char) -> bool {
    z == 'T' || z == 'C'
}

/// The standard genetic code, by first and second base.
///
/// `Some(Some(a))` is the amino acid `a`, `Some(None)` is a stop codon,
/// `None` is anything that is not three DNA bases.
pub open spec fn genetic_code(x: char, y: char, z: char) -> Option<Option<u8>> {
    let dna = |c: char| c == 'A' || c == 'C' || c == 'G' || c == 'T';
    let aa = |c: char| Some(Some(c as u8));
    let stop = Some(None);
    if !(dna(x) && dna(y) && dna(z)) {
        None
    } else if x == 'T' {
        if y == 'T' {
            if pyrimidine(z) { aa('F') } else { aa('L') }
        } else if y == 'C' {
            aa('S')
        } else if y == 'A' {
            if pyrimidine(z) { aa('Y') } else { stop }
        } else {
            if pyrimidine(z) { aa('C') } else if z == 'A' { stop } else { aa('W') }
        }
    } else if x == 'C' {
        if y == 'T' {
            aa('L')
        } else if y == 'C' {
            aa('P')
        } else if y == 'A' {
            if pyrimidine(z) { aa('H') } else { aa('Q') }
        } else {
            aa('R')
        }
    } else if x == 'A' {
        if y == 'T' {
            if z == 'G' { aa('M') } else { aa('I') }
        } else if y == 'C' {
            aa('T')
        } else if y == 'A' {
            if pyrimidine(z) { aa('N') } else { aa('K') }
        } else {
            if pyrimidine(z) { aa('S') } else { aa('R') }
        }
    } else {
        if y == 'T' {
            aa('V')
        } else if y == 'C' {
            aa('A')
        } else if y == 'A' {
            if pyrimidine(z) { aa('D') } else { aa('E') }
        } else {
            aa('G')
        }
    }
}

/// What a DNA codon means; `None` for a group that is not a codon of the table.
pub open spec fn dna_codon(c: Seq<u8>) -> Option<Option<u8>> {
    if c.len() == 3 {
        genetic_code(sym(c[0]), sym(c[1]), sym(c[2]))
    } else {
        None
    }
}

/// Translate DNA to protein
pub fn dna_to_protein(substring: &[u8]) -> (r: Result<Option<u8>>)
    ensures
        dna_codon(substring@) is Some <==> r is Ok,
        r is Ok ==> Some(r->Ok_0) == dna_codon(substring@),
        r is Err ==> r->Err_0.spec_kind() == ErrorKind::UnrecognizedCodon,
{
    if substring.len() != 3 {
        return Err(Error::new(ErrorKind::UnrecognizedCodon, "unrecognized codon"));
    }
    let codon = (substring[0] as char, substring[1] as char, substring[2] as char);
    let protein = match codon {
        ('G', 'C', 'T') | ('G', 'C', 'C') | ('G', 'C', 'A') | ('G', 'C', 'G') => Some('A'),
        ('T', 'G', 'T') | ('T', 'G', 'C') => Some('C'),
        ('G', 'A', 'T') | ('G', 'A', 'C') => Some('D'),
        ('G', 'A', 'A') | ('G', 'A', 'G') => Some('E'),
        ('T', 'T', 'T') | ('T', 'T', 'C') => Some('F'),
        ('G', 'G', 'T') | ('G', 'G', 'C') | ('G', 'G', 'A') | ('G', 'G', 'G') => Some('G'),
        ('C', 'A', 'T') | ('C', 'A', 'C') => Some('H'),
        ('A', 'T', 'T') | ('A', 'T', 'C') | ('A', 'T', 'A') => Some('I'),
        ('A', 'A', 'A') | ('A', 'A', 'G') => Some('K'),
        ('T', 'T', 'A') | ('T', 'T', 'G') | ('C', 'T', 'T') | ('C', 'T', 'C') | ('C', 'T', 'A')
        | ('C', 'T', 'G') => Some('L'),
        ('A', 'T', 'G') => Some('M'),
        ('A', 'A', 'T') | ('A', 'A', 'C') => Some('N'),
        ('C', 'C', 'T') | ('C', 'C', 'C') | ('C', 'C', 'A') | ('C', 'C', 'G') => Some('P'),
        ('C', 'A', 'A') | ('C', 'A', 'G') => Some('Q'),
        ('C', 'G', 'T') | ('C', 'G', 'C') | ('C', 'G', 'A') | ('C', 'G', 'G') | ('A', 'G', 'A')
        | ('A', 'G', 'G') => Some('R'),
        ('T', 'C', 'T') | ('T', 'C', 'C') | ('T', 'C', 'A') | ('T', 'C', 'G') | ('A', 'G', 'T')
        | ('A', 'G', 'C') => Some('S'),
        ('A', 'C', 'T') | ('A', 'C', 'C') | ('A', 'C', 'A') | ('A', 'C', 'G') => Some('T'),
        ('G', 'T', 'T') | ('G', 'T', 'C') | ('G', 'T', 'A') | ('G', 'T', 'G') => Some('V'),
        ('T', 'G', 'G') => Some('W'),
        ('T', 'A', 'T') | ('T', 'A', 'C') => Some('Y'),
        ('T', 'A', 'A') | ('T', 'A', 'G') | ('T', 'G', 'A') => None,
        _ => {
            return Err(Error::new(ErrorKind::UnrecognizedCodon, "unrecognized codon"));
        },
    };
    match protein {
        Some(c) => Ok(Some(c as u8)),
        None => Ok(None),
    }
}

/// Reverse complementing twice gives back the sequence.
pub proof fn lemma_reverse_complement_involution(s: Seq<u8>)
    requires
        all_dna(s),
    ensures
        all_dna(reverse_complement_of(s)),
        reverse_complement_of(reverse_complement_of(s)) == s,
{
    let r = reverse_complement_of(s);
    assert forall|i: int| 0 <= i < r.len() implies is_dna_base(#[trigger] r[i]) by {
        assert(is_dna_base(s[s.len() - 1 - i]));
    }
    assert forall|i: int| 0 <= i < s.len() implies #[trigger] reverse_complement_of(r)[i] == s[i] by {
        assert(is_dna_base(s[i]));
    }
    assert(reverse_complement_of(r) =~= s);
}

/// Reverse complementing is no identity: a sequence of odd length is never
/// its own reverse complement, as no base is its own partner.
pub proof fn lemma_reverse_complement_moves_odd(s: Seq<u8>)
    requires
        all_dna(s),
        s.len() % 2 == 1,
    ensures
        reverse_complement_of(s) != s,
{
    let m = (s.len() - 1) / 2;
    assert(s.len() - 1 - m == m);
    assert(is_dna_base(s[m]));
    assert(reverse_complement_of(s)[m] != s[m]);
}

} // verus!
