//! Counting point mutations between two strings of equal length.
use crate::common::text::{chars_of, split_char, split_spec};
use crate::errors::{Error, ErrorKind, Result};
use vstd::prelude::*;
use vstd::string::StringSliceAdditionalSpecFns;

verus! {

/// Separator of the two input strings.
pub const DELIMITER: char = '\n';

/// The number of positions below `n` where `a` and `b` differ.
pub open spec fn mismatch_count(a: Seq<char>, b: Seq<char>, n: int) -> nat
    decreases n,
{
    if n <= 0 {
        0
    } else {
        mismatch_count(a, b, n - 1) + if a[n - 1] != b[n - 1] {
            1nat
        } else {
            0nat
        }
    }
}

/// The number of positions, up to the shorter length, where `a` and `b`
/// differ.
pub open spec fn mismatches(a: Seq<char>, b: Seq<char>) -> nat {
    mismatch_count(a, b, if a.len() < b.len() { a.len() as int } else { b.len() as int })
}

/// Parse input into the two sequences
pub fn parse_input(input: String) -> (r: Result<(String, String)>)
    ensures
        r is Ok <==> split_spec(input@, DELIMITER).len() == 2,
        r is Ok ==> (r->Ok_0).0@ == split_spec(input@, DELIMITER)[0] && (r->Ok_0).1@ == split_spec(
            input@,
            DELIMITER,
        )[1],
        r is Err ==> r->Err_0.spec_kind() == ErrorKind::IO,
{
    let input: Vec<&str> = split_char(input.as_str(), DELIMITER);
    proof {
        assert(input@.map_values(|p: &str| p@).len() == input@.len());
    }
    if input.len() != 2 {
        return Err(Error::new(ErrorKind::IO, "invalid input"));
    }
    proof {
        assert(input@.map_values(|p: &str| p@)[0] == input@[0]@);
        assert(input@.map_values(|p: &str| p@)[1] == input@[1]@);
    }
    Ok((input[0].to_owned(), input[1].to_owned()))
}

/// Calculate the hamming distance
pub fn hamming_distance(seq1: &str, seq2: &str) -> (r: Result<i64>)
    requires
        seq1@.len() <= i64::MAX,
    ensures
        r is Ok <==> seq1.spec_bytes().len() == seq2.spec_bytes().len(),
        r is Ok ==> r->Ok_0 == mismatches(seq1@, seq2@),
        r is Err ==> r->Err_0.spec_kind() == ErrorKind::IO,
{
    if seq1.as_bytes().len() != seq2.as_bytes().len() {
        return Err(Error::new(ErrorKind::IO, "invalid input"));
    }
    let a = chars_of(seq1);
    let b = chars_of(seq2);
    let n = if a.len() < b.len() {
        a.len()
    } else {
        b.len()
    };
    let mut count: i64 = 0;
    let mut i: usize = 0;
    while i < n
        invariant
            i <= n,
            n <= a@.len(),
            n <= b@.len(),
            n == a@.len() || n == b@.len(),
            a@ == seq1@,
            b@ == seq2@,
            a@.len() <= i64::MAX,
            count == mismatch_count(a@, b@, i as int),
            count <= i,
        decreases n - i,
    {
        if a[i] != b[i] {
            count += 1;
        }
        i += 1;
    }
    Ok(count)
}

} // verus!
