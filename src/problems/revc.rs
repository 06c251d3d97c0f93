//! Reverse complementing a DNA string.
use crate::common::dna::{all_dna, reverse_complement_of};
use crate::common::text::push_char;
use crate::errors::{ErrorKind, Result};
use vstd::prelude::*;
use vstd::utf8::encode_utf8;

verus! {

/// Reverse Complement a DNA string
///
/// An error is returned if there is an invalid DNA base in the input dna_string.
///
pub fn reverse_complement(dna_string: String) -> (r: Result<String>)
    ensures
        r is Ok <==> all_dna(encode_utf8(dna_string@)),
        r is Ok ==> r->Ok_0@ == reverse_complement_of(encode_utf8(dna_string@)).map_values(
            |b: u8| b as char,
        ),
        r is Err ==> r->Err_0.spec_kind() == ErrorKind::InvalidSymbol,
{
    let rc = match crate::common::dna::reverse_complement(dna_string.as_str().as_bytes()) {
        Ok(rc) => rc,
        Err(e) => return Err(e),
    };
    let mut out = String::new();
    let mut i: usize = 0;
    while i < rc.len()
        invariant
            i <= rc@.len(),
            out@ == rc@.take(i as int).map_values(|b: u8| b as char),
        decreases rc@.len() - i,
    {
        push_char(&mut out, rc[i] as char);
        i += 1;
        proof {
            assert(out@ =~= rc@.take(i as int).map_values(|b: u8| b as char));
        }
    }
    proof {
        assert(rc@.take(i as int) =~= rc@);
    }
    Ok(out)
}

} // verus!
