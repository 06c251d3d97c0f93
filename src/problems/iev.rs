//! Expected offspring: reading the six couple counts.
use crate::common::text::{parse_usize, split_char, split_spec, unsigned_within};
use crate::errors::{Error, ErrorKind, Result};
use vstd::prelude::*;

verus! {

/// Separator of the six input values.
pub const DELIMITER: char = ' ';

/// The six values, each an unsigned integer that fits a `usize`.
pub open spec fn parse_six(input: Seq<char>) -> Option<Seq<usize>> {
    let p = split_spec(input, DELIMITER);
    if p.len() == 6 && forall|i: int|
        0 <= i < 6 ==> #[trigger] unsigned_within(p[i], usize::MAX as nat) is Some {
        Some(Seq::new(6, |i: int| unsigned_within(p[i], usize::MAX as nat)->0 as usize))
    } else {
        None
    }
}

/// Parse input into an array of usize
pub fn parse_input(input: String) -> (r: Result<[usize; 6]>)
    ensures
        r is Ok <==> parse_six(input@) is Some,
        r is Ok ==> r->Ok_0@ == parse_six(input@)->0,
        r is Err ==> r->Err_0.spec_kind() == ErrorKind::IO,
{
    let split: Vec<&str> = split_char(input.as_str(), DELIMITER);
    let ghost views = split@.map_values(|p: &str| p@);
    proof {
        assert(views.len() == split@.len());
    }
    if split.len() != 6 {
        return Err(Error::new(ErrorKind::IO, "invalid input"));
    }
    let mut output: [usize; 6] = [0; 6];
    let mut i: usize = 0;
    while i < 6
        invariant
            split@.len() == 6,
            views == split@.map_values(|p: &str| p@),
            views == split_spec(input@, DELIMITER),
            i <= 6,
            forall|t: int| 0 <= t < i ==> #[trigger] unsigned_within(views[t], usize::MAX as nat) is Some,
            forall|t: int|
                0 <= t < i ==> output@[t] == unsigned_within(#[trigger] views[t], usize::MAX as nat)->0,
        decreases 6 - i,
    {
        proof {
            assert(views[i as int] == split@[i as int]@);
        }
        match parse_usize(split[i]) {
            Some(v) => output[i] = v,
            None => return Err(Error::new(ErrorKind::IO, "invalid integer")),
        }
        i += 1;
    }
    proof {
        assert(output@ =~= Seq::new(6, |t: int| unsigned_within(views[t], usize::MAX as nat)->0 as usize));
    }
    Ok(output)
}

} // verus!
