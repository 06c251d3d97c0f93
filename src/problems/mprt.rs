//! Finding the N-glycosylation motif `N{P}[ST]{P}` in proteins.
use crate::common::text::{
    chars_of, decimal, lemma_split_single, push_char, push_decimal, split_char, split_once_char,
    split_spec,
};
use vstd::prelude::*;

verus! {

/// Separator of the protein identifiers.
pub const DELIMITER: char = '\n';

/// Separator after the accession part of an identifier.
pub const DELIMITER_ID: char = '_';

/// The motif: `N`, anything but `P`, `S` or `T`, anything but `P`.
pub open spec fn is_glycosylation(s: Seq<char>) -> bool {
    s.len() == 4 && s[0] == 'N' && s[1] != 'P' && (s[2] == 'S' || s[2] == 'T') && s[3] != 'P'
}

/// The positions, counted from one, of the motif in `c` from `i` on.
pub open spec fn motif_positions(c: Seq<char>, i: int) -> Seq<usize>
    decreases c.len() - i,
{
    if i < 0 || i + 4 > c.len() {
        Seq::empty()
    } else if is_glycosylation(c.subrange(i, i + 4)) {
        seq![(i + 1) as usize] + motif_positions(c, i + 1)
    } else {
        motif_positions(c, i + 1)
    }
}

/// Numbers in decimal, separated by single spaces.
pub open spec fn joined(v: Seq<usize>) -> Seq<char>
    decreases v.len(),
{
    if v.len() == 0 {
        Seq::empty()
    } else if v.len() == 1 {
        decimal(v[0] as nat)
    } else {
        joined(v.drop_last()) + seq![' '] + decimal(v.last() as nat)
    }
}

/// Parse input
pub fn parse_input(input: &str) -> (r: Vec<&str>)
    ensures
        r@.map_values(|p: &str| p@) == split_spec(input@, DELIMITER),
{
    split_char(input, DELIMITER)
}

/// Format indices
pub fn format_indices(indices: Vec<usize>) -> (r: String)
    ensures
        r@ == joined(indices@),
{
    let mut output = String::new();
    if indices.len() == 0 {
        return output;
    }
    push_decimal(&mut output, indices[0] as u128);
    proof {
        assert(indices@.take(1).drop_last() =~= Seq::<usize>::empty());
        assert(output@ =~= joined(indices@.take(1)));
    }
    let mut i: usize = 1;
    while i < indices.len()
        invariant
            1 <= i <= indices@.len(),
            output@ == joined(indices@.take(i as int)),
        decreases indices@.len() - i,
    {
        push_char(&mut output, ' ');
        push_decimal(&mut output, indices[i] as u128);
        i += 1;
        proof {
            assert(indices@.take(i as int).drop_last() =~= indices@.take(i - 1));
        }
    }
    proof {
        assert(indices@.take(i as int) =~= indices@);
    }
    output
}

/// Get ID
pub fn get_id(id: &str) -> (r: &str)
    ensures
        r@ == split_spec(id@, DELIMITER_ID)[0],
{
    match split_once_char(id, DELIMITER_ID) {
        None => {
            proof {
                crate::common::text::lemma_split_nonempty(id@, DELIMITER_ID);
                lemma_split_single(id@, DELIMITER_ID);
            }
            id
        },
        Some((first, _)) => first,
    }
}

/// Find the start indices of the glycosylation motif in a sequence
pub fn find_motifs(sequence: &str) -> (r: Vec<usize>)
    ensures
        r@ == motif_positions(sequence@, 0),
{
    let chars = chars_of(sequence);
    let mut indices: Vec<usize> = Vec::new();
    if chars.len() < 4 {
        return indices;
    }
    let cl = chars.len();
    let last = cl - 4;
    let mut i: usize = 0;
    while i <= last
        invariant
            chars@ == sequence@,
            cl == chars@.len(),
            last == chars@.len() - 4,
            i <= last + 1,
            indices@ + motif_positions(chars@, i as int) == motif_positions(chars@, 0),
        decreases last + 1 - i,
    {
        let window = vstd::slice::slice_subrange(chars.as_slice(), i, i + 4);
        proof {
            assert(window@ =~= chars@.subrange(i as int, i + 4));
        }
        let ghost before = indices@;
        if is_motif(window) {
            indices.push(i + 1);
            proof {
                assert(indices@ + motif_positions(chars@, i + 1) =~= before + motif_positions(
                    chars@,
                    i as int,
                ));
            }
        }
        i += 1;
    }
    proof {
        assert(indices@ + Seq::<usize>::empty() =~= indices@);
    }
    indices
}

/// Checks to see if the given string is a glycosylation motif
pub fn is_motif(substring: &[char]) -> (r: bool)
    ensures
        r == is_glycosylation(substring@),
{
    if substring.len() != 4 {
        return false;
    }
    if substring[0] != 'N' || substring[1] == 'P' || substring[3] == 'P' || (substring[2] != 'S'
        && substring[2] != 'T') {
        return false;
    }
    true
}

} // verus!
