//! Enumerating the strings of a given length over an ordered alphabet.
use crate::common::text::{
    parse_usize, remove_all, remove_matches, split_char, split_spec, string_from_utf8,
    unsigned_within,
};
use crate::errors::{Error, ErrorKind, Result};
use itertools::Itertools;
use vstd::prelude::*;
use vstd::utf8::{decode_utf8, encode_utf8, valid_utf8};

verus! {

/// The words of length `n` over `alphabet`, in lexicographic order of the
/// alphabet's order (the last position varies fastest).
pub open spec fn words(alphabet: Seq<u8>, n: nat) -> Seq<Seq<u8>>
    decreases n,
{
    if n <= 1 {
        alphabet.map_values(|b: u8| seq![b])
    } else {
        let shorter = words(alphabet, (n - 1) as nat);
        let m = alphabet.len();
        Seq::new(shorter.len() * m, |k: int| shorter[k / m as int].push(alphabet[k % m as int]))
    }
}

/// Separator of the two input lines.
pub const LINE_DELIMITER: char = '\n';

/// The text that separates the letters of the alphabet.
pub const BASE_DELIMITER: &'static str = " ";

/// Parse input: the alphabet (its line without spaces, as bytes) and the
/// length of the words.
pub fn parse_input(input: String) -> (r: Result<(Vec<u8>, usize)>)
    ensures
        ({
            let lines = split_spec(input@, LINE_DELIMITER);
            &&& r is Ok <==> (lines.len() == 2 && unsigned_within(lines[1], usize::MAX as nat) is Some)
            &&& r is Ok ==> (r->Ok_0).0@ == encode_utf8(remove_all(lines[0], seq![' ']))
                && (r->Ok_0).1 == unsigned_within(lines[1], usize::MAX as nat)->0
            &&& r is Err ==> r->Err_0.spec_kind() == ErrorKind::IO
        }),
{
    let lines: Vec<&str> = split_char(input.as_str(), LINE_DELIMITER);
    proof {
        assert(lines@.map_values(|p: &str| p@).len() == lines@.len());
    }
    if lines.len() != 2 {
        return Err(Error::new(ErrorKind::IO, "invalid input"));
    }
    proof {
        assert(lines@.map_values(|p: &str| p@)[0] == lines@[0]@);
        assert(lines@.map_values(|p: &str| p@)[1] == lines@[1]@);
        reveal_strlit(" ");
        assert(BASE_DELIMITER@ =~= seq![' ']);
    }
    let letters = remove_matches(lines[0], BASE_DELIMITER);
    let alphabet = vstd::slice::slice_to_vec(letters.as_str().as_bytes());
    let n = match parse_usize(lines[1]) {
        Some(n) => n,
        None => return Err(Error::new(ErrorKind::IO, "invalid integer")),
    };
    Ok((alphabet, n))
}

/// Relies on `Itertools::cartesian_product`: every pair of an item of `left`
/// and one of `right`, the left item varying slowest.
#[verifier::external_body]
fn cartesian(left: &Vec<Vec<u8>>, right: &Vec<u8>) -> (r: Vec<(Vec<u8>, u8)>)
    ensures
        r@.len() == left@.len() * right@.len(),
        forall|k: int|
            0 <= k < r@.len() ==> (#[trigger] r@[k]).0@ == left@[k / right@.len() as int]@ && r@[k].1
                == right@[k % right@.len() as int],
{
    left.iter().cartesian_product(right.iter()).map(|(l, x)| (l.clone(), *x)).collect()
}

/// Create cartesian product
pub fn permute(alphabet: &[u8], length: usize) -> (r: Result<Vec<String>>)
    requires
        length >= 1,
    ensures
        r is Ok <==> forall|i: int|
            0 <= i < words(alphabet@, length as nat).len() ==> valid_utf8(
                #[trigger] words(alphabet@, length as nat)[i],
            ),
        r is Ok ==> r->Ok_0@.map_values(|s: String| s@) == words(alphabet@, length as nat).map_values(
            |w: Seq<u8>| decode_utf8(w),
        ),
        r is Err ==> r->Err_0.spec_kind() == ErrorKind::IO,
{
    let alpha = vstd::slice::slice_to_vec(alphabet);
    let mut output: Vec<Vec<u8>> = Vec::new();
    let mut i: usize = 0;
    while i < alpha.len()
        invariant
            i <= alpha@.len(),
            alpha@ == alphabet@,
            output@.len() == i,
            forall|j: int| 0 <= j < i ==> (#[trigger] output@[j])@ == seq![alpha@[j]],
        decreases alpha@.len() - i,
    {
        output.push(vec![alpha[i]]);
        i += 1;
    }
    let mut round: usize = 1;
    while round < length
        invariant
            1 <= round <= length,
            alpha@ == alphabet@,
            output@.len() == words(alphabet@, round as nat).len(),
            forall|j: int|
                0 <= j < output@.len() ==> (#[trigger] output@[j])@ == words(
                    alphabet@,
                    round as nat,
                )[j],
        decreases length - round,
    {
        let ghost prev = output@;
        let pairs = cartesian(&output, &alpha);
        let mut next: Vec<Vec<u8>> = Vec::new();
        let mut k: usize = 0;
        while k < pairs.len()
            invariant
                k <= pairs@.len(),
                next@.len() == k,
                forall|j: int|
                    0 <= j < k ==> (#[trigger] next@[j])@ == pairs@[j].0@.push(pairs@[j].1),
            decreases pairs@.len() - k,
        {
            let mut l = pairs[k].0.clone();
            let x = pairs[k].1;
            l.push(x);
            next.push(l);
            k += 1;
        }
        output = next;
        round += 1;
        proof {
            assert forall|j: int| 0 <= j < output@.len() implies (#[trigger] output@[j])@ == words(
                alphabet@,
                round as nat,
            )[j] by {
                let m = alpha@.len() as int;
                let p = prev.len() as int;
                assert(m > 0 && j / m < p) by (nonlinear_arith)
                    requires
                        0 <= j < p * m,
                        p >= 0,
                        m >= 0,
                ;
                assert(0 <= j / m) by (nonlinear_arith)
                    requires
                        0 <= j,
                        m > 0,
                ;
                assert(prev[j / m]@ == words(alphabet@, (round - 1) as nat)[j / m]);
            }
        }
    }
    let mut result: Vec<String> = Vec::new();
    let mut j: usize = 0;
    while j < output.len()
        invariant
            j <= output@.len(),
            round == length,
            output@.len() == words(alphabet@, length as nat).len(),
            forall|t: int|
                0 <= t < output@.len() ==> (#[trigger] output@[t])@ == words(
                    alphabet@,
                    length as nat,
                )[t],
            forall|t: int| 0 <= t < j ==> valid_utf8(#[trigger] words(alphabet@, length as nat)[t]),
            result@.len() == j,
            forall|t: int|
                0 <= t < j ==> (#[trigger] result@[t])@ == decode_utf8(
                    words(alphabet@, length as nat)[t],
                ),
        decreases output@.len() - j,
    {
        match string_from_utf8(output[j].clone()) {
            Some(s) => result.push(s),
            None => return Err(Error::new(ErrorKind::IO, "invalid utf-8")),
        }
        j += 1;
    }
    proof {
        assert(result@.map_values(|s: String| s@) =~= words(alphabet@, length as nat).map_values(
            |w: Seq<u8>| decode_utf8(w),
        ));
    }
    Ok(result)
}

} // verus!
