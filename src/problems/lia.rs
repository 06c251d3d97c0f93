//! Independent alleles: reading the generation and the count of organisms.
use crate::common::text::{parse_u32, split_char, split_spec, unsigned_within};
use crate::errors::{Error, ErrorKind, Result};
use vstd::prelude::*;

verus! {

/// Separator of the two input values.
pub const DELIMITER: char = ' ';

/// The two values, each an unsigned integer that fits a `u32`.
pub open spec fn parse_pair(input: Seq<char>) -> Option<(nat, nat)> {
    let p = split_spec(input, DELIMITER);
    let max = u32::MAX as nat;
    if p.len() == 2 && unsigned_within(p[0], max) is Some && unsigned_within(p[1], max) is Some {
        Some((unsigned_within(p[0], max)->0, unsigned_within(p[1], max)->0))
    } else {
        None
    }
}

/// Parse input
pub fn parse_input(input: String) -> (r: Result<(u32, u32)>)
    ensures
        r is Ok <==> parse_pair(input@) is Some,
        r is Ok ==> parse_pair(input@) == Some(((r->Ok_0).0 as nat, (r->Ok_0).1 as nat)),
        r is Err ==> r->Err_0.spec_kind() == ErrorKind::IO,
{
    let input: Vec<&str> = split_char(input.as_str(), DELIMITER);
    proof {
        assert(input@.map_values(|p: &str| p@).len() == input@.len());
    }
    if input.len() != 2 {
        return Err(Error::new(ErrorKind::IO, "invalid input"));
    }
    proof {
        assert(input@.map_values(|p: &str| p@)[0] == input@[0]@);
        assert(input@.map_values(|p: &str| p@)[1] == input@[1]@);
    }
    let k = match parse_u32(input[0]) {
        Some(v) => v,
        None => return Err(Error::new(ErrorKind::IO, "invalid integer")),
    };
    let n = match parse_u32(input[1]) {
        Some(v) => v,
        None => return Err(Error::new(ErrorKind::IO, "invalid integer")),
    };
    Ok((k, n))
}

} // verus!
