//! Counting the four DNA bases.
use crate::common::text::{char_map, char_map_get, chars_of, decimal, push_char, push_decimal};
use std::collections::BTreeMap;
use vstd::prelude::*;

verus! {

/// How often `c` occurs in `s`.
pub open spec fn occurrences(s: Seq<char>, c: char) -> nat
    decreases s.len(),
{
    if s.len() == 0 {
        0
    } else {
        occurrences(s.drop_last(), c) + if s.last() == c {
            1nat
        } else {
            0nat
        }
    }
}

/// The count of `c` in a counter, zero where it has none.
pub open spec fn count_in(m: Map<char, usize>, c: char) -> nat {
    if m.contains_key(c) {
        m[c] as nat
    } else {
        0
    }
}

/// The four counts of `A`, `C`, `G`, `T`, separated by spaces.
pub open spec fn counts_line(m: Map<char, usize>) -> Seq<char> {
    decimal(count_in(m, 'A')) + seq![' '] + decimal(count_in(m, 'C')) + seq![' '] + decimal(
        count_in(m, 'G'),
    ) + seq![' '] + decimal(count_in(m, 'T'))
}

/// Count bases in the dna string and return a BTreeMap
///
/// Any bases that are not 'A', 'C', 'G', or 'T' are ignored.
///
pub fn count_bases(dna_string: &str) -> (r: BTreeMap<char, usize>)
    ensures
        r@.dom() == set!['A', 'C', 'G', 'T'],
        r@['A'] == occurrences(dna_string@, 'A'),
        r@['C'] == occurrences(dna_string@, 'C'),
        r@['G'] == occurrences(dna_string@, 'G'),
        r@['T'] == occurrences(dna_string@, 'T'),
{
    let chars = chars_of(dna_string);
    let mut counts: [usize; 4] = [0, 0, 0, 0];
    let bases: [char; 4] = ['A', 'C', 'G', 'T'];
    let cl = chars.len();
    let mut i: usize = 0;
    while i < cl
        invariant
            cl == chars@.len(),
            i <= chars@.len(),
            chars@ == dna_string@,
            bases@ == seq!['A', 'C', 'G', 'T'],
            forall|k: int| 0 <= k < 4 ==> #[trigger] counts@[k] == occurrences(chars@.take(i as int), bases@[k]),
            forall|k: int| 0 <= k < 4 ==> #[trigger] counts@[k] <= i,
        decreases chars@.len() - i,
    {
        let base = chars[i];
        proof {
            assert(chars@.take(i + 1).drop_last() =~= chars@.take(i as int));
        }
        let mut k: usize = 0;
        while k < 4
            invariant
                i < chars@.len(),
                cl == chars@.len(),
                base == chars@[i as int],
                chars@.take(i + 1).drop_last() == chars@.take(i as int),
                chars@.take(i + 1).last() == base,
                bases@ == seq!['A', 'C', 'G', 'T'],
                k <= 4,
                forall|t: int| 0 <= t < k ==> #[trigger] counts@[t] == occurrences(chars@.take(i + 1), bases@[t]),
                forall|t: int| k <= t < 4 ==> #[trigger] counts@[t] == occurrences(chars@.take(i as int), bases@[t]),
                forall|t: int| 0 <= t < k ==> #[trigger] counts@[t] <= i + 1,
                forall|t: int| k <= t < 4 ==> #[trigger] counts@[t] <= i,
            decreases 4 - k,
        {
            if bases[k] == base {
                counts[k] = counts[k] + 1;
            }
            k += 1;
        }
        i += 1;
    }
    proof {
        assert(chars@.take(i as int) =~= chars@);
    }
    let pairs = vec![('A', counts[0]), ('C', counts[1]), ('G', counts[2]), ('T', counts[3])];
    let r = char_map(pairs);
    proof {
        assert(pairs@[0].0 == 'A' && pairs@[1].0 == 'C' && pairs@[2].0 == 'G' && pairs@[3].0 == 'T');
        assert(r@.dom() =~= set!['A', 'C', 'G', 'T']) by {
            assert forall|c: char| r@.contains_key(c) implies set!['A', 'C', 'G', 'T'].contains(c) by {
                let j = choose|j: int| 0 <= j < pairs@.len() && pairs@[j].0 == c;
            }
            assert(r@.contains_key(pairs@[0].0));
            assert(r@.contains_key(pairs@[1].0));
            assert(r@.contains_key(pairs@[2].0));
            assert(r@.contains_key(pairs@[3].0));
        }
        assert(r@[pairs@[0].0] == pairs@[0].1);
        assert(r@[pairs@[1].0] == pairs@[1].1);
        assert(r@[pairs@[2].0] == pairs@[2].1);
        assert(r@[pairs@[3].0] == pairs@[3].1);
    }
    r
}

/// Format output
pub fn format_output(counter: BTreeMap<char, usize>) -> (r: String)
    ensures
        r@ == counts_line(counter@),
{
    let bases: [char; 4] = ['A', 'C', 'G', 'T'];
    let mut out = String::new();
    let mut k: usize = 0;
    while k < 4
        invariant
            k <= 4,
            bases@ == seq!['A', 'C', 'G', 'T'],
            out@ == if k == 0 {
                Seq::empty()
            } else if k == 1 {
                decimal(count_in(counter@, 'A'))
            } else if k == 2 {
                decimal(count_in(counter@, 'A')) + seq![' '] + decimal(count_in(counter@, 'C'))
            } else if k == 3 {
                decimal(count_in(counter@, 'A')) + seq![' '] + decimal(count_in(counter@, 'C'))
                    + seq![' '] + decimal(count_in(counter@, 'G'))
            } else {
                counts_line(counter@)
            },
        decreases 4 - k,
    {
        if k > 0 {
            push_char(&mut out, ' ');
        }
        let count = match char_map_get(&counter, bases[k]) {
            Some(c) => c,
            None => 0,
        };
        push_decimal(&mut out, count as u128);
        k += 1;
    }
    out
}

} // verus!
