//! Enumerating the orderings of `1..=n`.
use crate::common::text::{decimal, push_char, push_decimal};
use itertools::Itertools;
use vstd::prelude::*;

verus! {

/// `s` without its item at `i`.
pub open spec fn without(s: Seq<usize>, i: int) -> Seq<usize> {
    s.take(i) + s.skip(i + 1)
}

/// Every ordering of the items of `s`, in lexicographic order of positions:
/// first those that start with `s[0]`, then those that start with `s[1]`...
pub open spec fn orderings(s: Seq<usize>) -> Seq<Seq<usize>>
    decreases s.len(), s.len() + 1,
{
    if s.len() == 0 {
        seq![Seq::empty()]
    } else {
        orderings_from(s, 0)
    }
}

/// The orderings of `s` that start with the item at `i` or a later one.
pub open spec fn orderings_from(s: Seq<usize>, i: int) -> Seq<Seq<usize>>
    decreases s.len(), s.len() - i,
{
    if i < 0 || i >= s.len() {
        Seq::empty()
    } else {
        orderings(without(s, i)).map_values(|p: Seq<usize>| seq![s[i]] + p) + orderings_from(
            s,
            i + 1,
        )
    }
}

/// `1`, `2`, ..., `n`.
pub open spec fn one_to(n: nat) -> Seq<usize> {
    Seq::new(n, |i: int| (i + 1) as usize)
}

/// Numbers in decimal, separated by single spaces.
pub open spec fn line_of(v: Seq<usize>) -> Seq<char>
    decreases v.len(),
{
    if v.len() == 0 {
        Seq::empty()
    } else if v.len() == 1 {
        decimal(v[0] as nat)
    } else {
        line_of(v.drop_last()) + seq![' '] + decimal(v.last() as nat)
    }
}

/// Relies on `Itertools::permutations` with as many items as the input
/// holds: every ordering, in lexicographic order of positions.
#[verifier::external_body]
fn all_orderings(items: Vec<usize>) -> (r: Vec<Vec<usize>>)
    ensures
        r@.map_values(|p: Vec<usize>| p@) == orderings(items@),
{
    let k = items.len();
    items.into_iter().permutations(k).collect()
}

/// The numbers of a line, separated by spaces.
pub fn format_line(line: &[usize]) -> (r: String)
    ensures
        r@ == line_of(line@),
{
    let mut output = String::new();
    if line.len() == 0 {
        return output;
    }
    push_decimal(&mut output, line[0] as u128);
    proof {
        assert(line@.take(1).drop_last() =~= Seq::<usize>::empty());
    }
    let mut i: usize = 1;
    while i < line.len()
        invariant
            1 <= i <= line@.len(),
            output@ == line_of(line@.take(i as int)),
        decreases line@.len() - i,
    {
        push_char(&mut output, ' ');
        push_decimal(&mut output, line[i] as u128);
        i += 1;
        proof {
            assert(line@.take(i as int).drop_last() =~= line@.take(i - 1));
        }
    }
    proof {
        assert(line@.take(i as int) =~= line@);
    }
    output
}

/// Every ordering of `1..=n`.
pub fn permutations(n: usize) -> (r: Vec<Vec<usize>>)
    ensures
        r@.map_values(|p: Vec<usize>| p@) == orderings(one_to(n as nat)),
{
    let mut items: Vec<usize> = Vec::new();
    let mut i: usize = 0;
    while i < n
        invariant
            i <= n,
            items@ == one_to(i as nat),
        decreases n - i,
    {
        i += 1;
        items.push(i);
        proof {
            assert(items@ =~= one_to(i as nat));
        }
    }
    all_orderings(items)
}

} // verus!
