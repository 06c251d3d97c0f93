//! Transcribing DNA into RNA.
use crate::common::text::{chars_of, push_char};
use vstd::prelude::*;

verus! {

/// `c` with `T` replaced by `U`.
pub open spec fn transcribed(c: char) -> char {
    if c == 'T' {
        'U'
    } else {
        c
    }
}

/// Transcribe DNA to RNA
///
/// Replace any 'T' with 'U'.  Everything else is left alone.
///
pub fn transcribe(dna_string: String) -> (r: String)
    ensures
        r@ == dna_string@.map_values(|c: char| transcribed(c)),
{
    let chars = chars_of(dna_string.as_str());
    let mut out = String::new();
    let mut i: usize = 0;
    while i < chars.len()
        invariant
            i <= chars@.len(),
            chars@ == dna_string@,
            out@ == chars@.take(i as int).map_values(|c: char| transcribed(c)),
        decreases chars@.len() - i,
    {
        let base = chars[i];
        push_char(
            &mut out,
            if base == 'T' {
                'U'
            } else {
                base
            },
        );
        i += 1;
        proof {
            assert(out@ =~= chars@.take(i as int).map_values(|c: char| transcribed(c)));
        }
    }
    proof {
        assert(chars@.take(i as int) =~= chars@);
    }
    out
}

} // verus!
