//! Mendel's first law: the organisms that can be paired for mating.
use crate::common::text::{parse_usize, split_char, split_spec, unsigned_within};
use crate::errors::{Error, ErrorKind, Result};
use itertools::Itertools;
use vstd::prelude::*;

verus! {

/// Separator of the three input values.
pub const DELIMITER: char = ' ';

/// The alleles of one organism for one factor.
#[derive(Debug, Clone, Copy, PartialEq, Eq, Structural)]
pub enum AllelePairs {
    HomoDom,
    HomoRec,
    Hetero,
}

/// Every pair of two items of `s`, the first before the second, in order of
/// the first item and then of the second.
pub open spec fn pairs_of(s: Seq<AllelePairs>) -> Seq<(AllelePairs, AllelePairs)>
    decreases s.len(),
{
    if s.len() == 0 {
        Seq::empty()
    } else {
        s.drop_first().map_values(|b: AllelePairs| (s[0], b)) + pairs_of(s.drop_first())
    }
}

/// The population: `k` dominant homozygous, `n` recessive homozygous, then
/// `m` heterozygous organisms.
pub open spec fn population(k: nat, m: nat, n: nat) -> Seq<AllelePairs> {
    Seq::new(k, |i: int| AllelePairs::HomoDom) + Seq::new(n, |i: int| AllelePairs::HomoRec)
        + Seq::new(m, |i: int| AllelePairs::Hetero)
}

/// The three values, each an unsigned integer that fits a `usize`.
pub open spec fn parse_triple(input: Seq<char>) -> Option<(nat, nat, nat)> {
    let p = split_spec(input, DELIMITER);
    let max = usize::MAX as nat;
    if p.len() == 3 && unsigned_within(p[0], max) is Some && unsigned_within(p[1], max) is Some
        && unsigned_within(p[2], max) is Some {
        Some(
            (
                unsigned_within(p[0], max)->0,
                unsigned_within(p[1], max)->0,
                unsigned_within(p[2], max)->0,
            ),
        )
    } else {
        None
    }
}

/// Parse input
///
/// Parse input into k, m, and n and return an error if the input is invalid
///
pub fn parse_input(input: String) -> (r: Result<(usize, usize, usize)>)
    ensures
        r is Ok <==> parse_triple(input@) is Some,
        r is Ok ==> parse_triple(input@) == Some(
            ((r->Ok_0).0 as nat, (r->Ok_0).1 as nat, (r->Ok_0).2 as nat),
        ),
        r is Err ==> r->Err_0.spec_kind() == ErrorKind::IO,
{
    let input: Vec<&str> = split_char(input.as_str(), DELIMITER);
    proof {
        assert(input@.map_values(|p: &str| p@).len() == input@.len());
    }
    if input.len() != 3 {
        return Err(Error::new(ErrorKind::IO, "invalid input"));
    }
    proof {
        assert(input@.map_values(|p: &str| p@)[0] == input@[0]@);
        assert(input@.map_values(|p: &str| p@)[1] == input@[1]@);
        assert(input@.map_values(|p: &str| p@)[2] == input@[2]@);
    }
    let k = match parse_usize(input[0]) {
        Some(v) => v,
        None => return Err(Error::new(ErrorKind::IO, "invalid integer")),
    };
    let m = match parse_usize(input[1]) {
        Some(v) => v,
        None => return Err(Error::new(ErrorKind::IO, "invalid integer")),
    };
    let n = match parse_usize(input[2]) {
        Some(v) => v,
        None => return Err(Error::new(ErrorKind::IO, "invalid integer")),
    };
    Ok((k, m, n))
}

/// Relies on `Itertools::combinations` with two items: every pair of
/// positions, in lexicographic order of the positions.
#[verifier::external_body]
fn combinations2(items: Vec<AllelePairs>) -> (r: Vec<(AllelePairs, AllelePairs)>)
    ensures
        r@ == pairs_of(items@),
{
    items.into_iter().combinations(2).map(|x| (x[0], x[1])).collect()
}

/// Return all possible pair combinations
pub fn pairs(k: usize, m: usize, n: usize) -> (r: Vec<(AllelePairs, AllelePairs)>)
    ensures
        r@ == pairs_of(population(k as nat, m as nat, n as nat)),
{
    let mut items: Vec<AllelePairs> = Vec::new();
    let groups = [(AllelePairs::HomoDom, k), (AllelePairs::HomoRec, n), (AllelePairs::Hetero, m)];
    let mut g: usize = 0;
    while g < 3
        invariant
            g <= 3,
            groups@ == seq![
                (AllelePairs::HomoDom, k),
                (AllelePairs::HomoRec, n),
                (AllelePairs::Hetero, m),
            ],
            items@ == if g == 0 {
                Seq::empty()
            } else if g == 1 {
                Seq::new(k as nat, |i: int| AllelePairs::HomoDom)
            } else if g == 2 {
                Seq::new(k as nat, |i: int| AllelePairs::HomoDom) + Seq::new(
                    n as nat,
                    |i: int| AllelePairs::HomoRec,
                )
            } else {
                population(k as nat, m as nat, n as nat)
            },
        decreases 3 - g,
    {
        let (kind, count) = groups[g];
        let ghost start = items@;
        let mut c: usize = 0;
        while c < count
            invariant
                c <= count,
                items@ == start + Seq::new(c as nat, |i: int| kind),
            decreases count - c,
        {
            items.push(kind);
            c += 1;
            proof {
                assert(items@ =~= start + Seq::new(c as nat, |i: int| kind));
            }
        }
        g += 1;
        proof {
            if g == 1 {
                assert(items@ =~= Seq::new(k as nat, |i: int| AllelePairs::HomoDom));
            } else if g == 2 {
                assert(items@ =~= Seq::new(k as nat, |i: int| AllelePairs::HomoDom) + Seq::new(
                    n as nat,
                    |i: int| AllelePairs::HomoRec,
                ));
            } else {
                assert(items@ =~= population(k as nat, m as nat, n as nat));
            }
        }
    }
    combinations2(items)
}

} // verus!
