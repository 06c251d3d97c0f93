//! Finding the positions of a motif in a DNA string.
use crate::common::text::{split_once_char, split_spec, string_from_utf8};
use crate::errors::{Error, ErrorKind, Result};
use vstd::prelude::*;
use vstd::string::StringSliceAdditionalSpecFns;
use vstd::utf8::{decode_utf8, valid_utf8};

verus! {

/// Separator of the string and the motif.
pub const DELIMITER: char = '\n';

/// The `len` bytes of `d` that start at `i`.
pub open spec fn window(d: Seq<u8>, i: int, len: int) -> Seq<u8> {
    d.subrange(i, i + len)
}

/// The windows of `d` from `i` on, the motif's length long, that read as
/// `sub`; each given by its position counted from one.
pub open spec fn positions_from(d: Seq<u8>, sub: Seq<char>, len: int, i: int) -> Seq<usize>
    decreases d.len() - i,
{
    if i < 0 || len <= 0 || i + len > d.len() {
        Seq::empty()
    } else {
        let w = window(d, i, len);
        let rest = positions_from(d, sub, len, i + 1);
        if valid_utf8(w) && decode_utf8(w) == sub {
            seq![(i + 1) as usize] + rest
        } else {
            rest
        }
    }
}

/// Parse input
pub fn parse_input(input: &str) -> (r: Result<(&str, &str)>)
    ensures
        r is Ok <==> split_spec(input@, DELIMITER).len() > 1,
        r is Ok ==> (r->Ok_0).0@ == split_spec(input@, DELIMITER)[0] && (r->Ok_0).1@ == input@.skip(
            split_spec(input@, DELIMITER)[0].len() as int + 1,
        ),
        r is Err ==> r->Err_0.spec_kind() == ErrorKind::IO,
{
    match split_once_char(input, DELIMITER) {
        Some(pair) => Ok(pair),
        None => Err(Error::new(ErrorKind::IO, "invalid input")),
    }
}

/// Find the positions of the substring
pub fn find_pos(dna_string: &str, substring: &str) -> (r: Result<Vec<usize>>)
    requires
        substring.spec_bytes().len() > 0,
    ensures
        ({
            let d = dna_string.spec_bytes();
            let len = substring.spec_bytes().len() as int;
            &&& r is Ok <==> (len > d.len() || forall|i: int|
                0 <= i <= d.len() - len ==> valid_utf8(#[trigger] window(d, i, len)))
            &&& r is Ok ==> r->Ok_0@ == positions_from(d, substring@, len, 0)
            &&& r is Err ==> r->Err_0.spec_kind() == ErrorKind::IO
        }),
{
    let d = dna_string.as_bytes();
    let len = substring.as_bytes().len();
    if len > d.len() {
        return Ok(Vec::new());
    }
    let sub = substring.to_owned();
    let dl = d.len();
    let last = dl - len;
    let mut positions: Vec<usize> = Vec::new();
    let mut i: usize = 0;
    while i <= last
        invariant
            d@ == dna_string.spec_bytes(),
            len == substring.spec_bytes().len(),
            sub@ == substring@,
            dl == d@.len(),
            last == d@.len() - len,
            0 < len <= d@.len(),
            i <= last + 1,
            forall|j: int| 0 <= j < i ==> valid_utf8(#[trigger] window(d@, j, len as int)),
            positions@ + positions_from(d@, sub@, len as int, i as int) == positions_from(
                d@,
                sub@,
                len as int,
                0,
            ),
        decreases last + 1 - i,
    {
        let w = vstd::slice::slice_to_vec(vstd::slice::slice_subrange(d, i, i + len));
        proof {
            assert(w@ =~= window(d@, i as int, len as int));
        }
        let text = match string_from_utf8(w) {
            Some(text) => text,
            None => return Err(Error::new(ErrorKind::IO, "invalid utf-8")),
        };
        let ghost before = positions@;
        if text == sub {
            positions.push(i + 1);
            proof {
                assert(positions@ + positions_from(d@, sub@, len as int, i + 1) =~= before
                    + positions_from(d@, sub@, len as int, i as int));
            }
        }
        i += 1;
    }
    proof {
        assert(positions@ + Seq::<usize>::empty() =~= positions@);
    }
    Ok(positions)
}

} // verus!
