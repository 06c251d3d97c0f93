//! Consensus string and profile matrix of equally long DNA strings.
use crate::common::dna::{BASE_A, BASE_C, BASE_G, BASE_T};
use crate::common::text::{decimal, push_char, push_decimal};
use crate::errors::Result;
use std::collections::BTreeMap;
use vstd::prelude::*;
use vstd::string::StringSliceAdditionalSpecFns;

verus! {

/// The counts of base `b`, position by position: the stored row, or zeros
/// where the counter has none.
pub open spec fn row_of(m: Map<u8, Vec<usize>>, b: u8, len: nat) -> Seq<usize> {
    if m.contains_key(b) {
        m[b]@
    } else {
        Seq::new(len, |i: int| 0usize)
    }
}

/// Keeps the best base so far unless `b` was seen strictly more often.
pub open spec fn pick(best: (u8, nat), b: u8, count: nat) -> (u8, nat) {
    if count > best.1 {
        (b, count)
    } else {
        best
    }
}

/// The most frequent base at position `i`; on a tie the first of `A`, `C`,
/// `G`, `T`, and `A` where nothing was counted.
pub open spec fn consensus_base(m: Map<u8, Vec<usize>>, len: nat, i: int) -> u8 {
    let start = (BASE_A, 0nat);
    let a = pick(start, BASE_A, row_of(m, BASE_A, len)[i] as nat);
    let c = pick(a, BASE_C, row_of(m, BASE_C, len)[i] as nat);
    let g = pick(c, BASE_G, row_of(m, BASE_G, len)[i] as nat);
    pick(g, BASE_T, row_of(m, BASE_T, len)[i] as nat).0
}

/// The consensus string of a counter.
pub open spec fn consensus_of(m: Map<u8, Vec<usize>>, len: nat) -> Seq<char> {
    Seq::new(len, |i: int| consensus_base(m, len, i) as char)
}

/// The counts of a row, each after a space.
pub open spec fn counts_text(counts: Seq<usize>) -> Seq<char>
    decreases counts.len(),
{
    if counts.len() == 0 {
        Seq::empty()
    } else {
        counts_text(counts.drop_last()) + seq![' '] + decimal(counts.last() as nat)
    }
}

/// One line of the profile: a line feed, the base, a colon, and its counts.
pub open spec fn profile_line(m: Map<u8, Vec<usize>>, b: u8, len: nat) -> Seq<char> {
    seq!['\n', b as char, ':'] + counts_text(row_of(m, b, len))
}

/// The consensus string followed by the profile lines of `A`, `C`, `G`, `T`.
pub open spec fn report_of(m: Map<u8, Vec<usize>>, len: nat) -> Seq<char> {
    consensus_of(m, len) + profile_line(m, BASE_A, len) + profile_line(m, BASE_C, len)
        + profile_line(m, BASE_G, len) + profile_line(m, BASE_T, len)
}

/// The four bases in the order of the profile.
pub open spec fn is_profile_base(b: u8) -> bool {
    b == BASE_A || b == BASE_C || b == BASE_G || b == BASE_T
}

/// Counter for bases
#[derive(Debug, PartialEq)]
pub struct Counter {
    pub counter: BTreeMap<u8, Vec<usize>>,
    pub sequence_length: usize,
}

/// `n` zeros.
fn zeros(n: usize) -> (r: Vec<usize>)
    ensures
        r@ == Seq::new(n as nat, |i: int| 0usize),
{
    let mut v: Vec<usize> = Vec::with_capacity(n);
    let mut i: usize = 0;
    while i < n
        invariant
            i <= n,
            v@ == Seq::new(i as nat, |j: int| 0usize),
        decreases n - i,
    {
        v.push(0);
        i += 1;
        proof {
            assert(v@ =~= Seq::new(i as nat, |j: int| 0usize));
        }
    }
    v
}

impl Counter {
    /// Every counted base has a row as long as the sequences.
    pub open spec fn wf(&self) -> bool {
        forall|b: u8| #[trigger]
            self.counter@.contains_key(b) ==> self.counter@[b]@.len() == self.sequence_length
    }

    /// Construct a new counter
    pub fn new(sequence_length: usize) -> (r: Self)
        ensures
            r.wf(),
            r.sequence_length == sequence_length,
            r.counter@.dom() == Set::empty().insert(BASE_A).insert(BASE_C).insert(BASE_G).insert(
                BASE_T,
            ),
            forall|b: u8| #[trigger]
                r.counter@.contains_key(b) ==> r.counter@[b]@ == Seq::new(
                    sequence_length as nat,
                    |i: int| 0usize,
                ),
    {
        let mut counter: BTreeMap<u8, Vec<usize>> = BTreeMap::new();
        counter.insert(BASE_A, zeros(sequence_length));
        counter.insert(BASE_C, zeros(sequence_length));
        counter.insert(BASE_G, zeros(sequence_length));
        counter.insert(BASE_T, zeros(sequence_length));
        proof {
            assert(counter@.dom() =~= Set::empty().insert(BASE_A).insert(BASE_C).insert(
                BASE_G,
            ).insert(BASE_T));
        }
        Self { counter, sequence_length }
    }

    /// Update counter with a sequence
    pub fn update(&mut self, sequence: &str)
        requires
            old(self).wf(),
            sequence.spec_bytes().len() == old(self).sequence_length,
            forall|b: u8, i: int|
                old(self).counter@.contains_key(b) && 0 <= i < old(self).sequence_length
                    ==> #[trigger] old(self).counter@[b]@[i] < usize::MAX,
        ensures
            final(self).wf(),
            final(self).sequence_length == old(self).sequence_length,
            final(self).counter@.dom() == old(self).counter@.dom(),
            forall|b: u8, i: int|
                final(self).counter@.contains_key(b) && 0 <= i < final(self).sequence_length
                    ==> #[trigger] final(self).counter@[b]@[i] == old(self).counter@[b]@[i] + (if sequence.spec_bytes()[i]
                    == b {
                    1usize
                } else {
                    0usize
                }),
    {
        let seq = sequence.as_bytes();
        let n = self.sequence_length;
        let ghost m0 = self.counter@;
        let mut index: usize = 0;
        while index < n
            invariant
                index <= n,
                n == self.sequence_length,
                n == seq@.len(),
                seq@ == sequence.spec_bytes(),
                self.wf(),
                self.counter@.dom() == m0.dom(),
                forall|b: u8| #[trigger] m0.contains_key(b) ==> m0[b]@.len() == n,
                forall|b: u8, i: int|
                    m0.contains_key(b) && 0 <= i < n ==> #[trigger] m0[b]@[i] < usize::MAX,
                forall|b: u8, i: int|
                    self.counter@.contains_key(b) && 0 <= i < n ==> #[trigger] self.counter@[b]@[i] == m0[b]@[i]
                        + (if i < index && seq@[i] == b {
                        1usize
                    } else {
                        0usize
                    }),
            decreases n - index,
        {
            let base = seq[index];
            if let Some(mut counts) = self.counter.remove(&base) {
                let c = counts[index];
                counts.set(index, c + 1);
                self.counter.insert(base, counts);
            }
            index += 1;
        }
    }

    /// Return the consensus sequence
    pub fn consensus(&self) -> (r: Result<String>)
        requires
            forall|b: u8| #[trigger]
                self.counter@.contains_key(b) ==> self.counter@[b]@.len() >= self.sequence_length,
        ensures
            r is Ok,
            r->Ok_0@ == consensus_of(self.counter@, self.sequence_length as nat),
    {
        let n = self.sequence_length;
        let mut consensus = String::new();
        let mut index: usize = 0;
        while index < n
            invariant
                index <= n,
                n == self.sequence_length,
                forall|b: u8| #[trigger]
                    self.counter@.contains_key(b) ==> self.counter@[b]@.len() >= n,
                consensus@ =~= consensus_of(self.counter@, n as nat).take(index as int),
            decreases n - index,
        {
            let mut base = BASE_A;
            let mut max_count: usize = 0;
            let bases = [BASE_A, BASE_C, BASE_G, BASE_T];
            let mut k: usize = 0;
            while k < 4
                invariant
                    k <= 4,
                    index < n,
                    bases@ == seq![BASE_A, BASE_C, BASE_G, BASE_T],
                    forall|b: u8| #[trigger]
                        self.counter@.contains_key(b) ==> self.counter@[b]@.len() >= n,
                    ({
                        let m = self.counter@;
                        let l = n as nat;
                        let i = index as int;
                        let s0 = (BASE_A, 0nat);
                        let sa = pick(s0, BASE_A, row_of(m, BASE_A, l)[i] as nat);
                        let sc = pick(sa, BASE_C, row_of(m, BASE_C, l)[i] as nat);
                        let sg = pick(sc, BASE_G, row_of(m, BASE_G, l)[i] as nat);
                        let st = pick(sg, BASE_T, row_of(m, BASE_T, l)[i] as nat);
                        (base, max_count as nat) == (if k == 0 {
                            s0
                        } else if k == 1 {
                            sa
                        } else if k == 2 {
                            sc
                        } else if k == 3 {
                            sg
                        } else {
                            st
                        })
                    }),
                decreases 4 - k,
            {
                let b = bases[k];
                let count = match self.counter.get(&b) {
                    Some(counts) => counts[index],
                    None => 0,
                };
                if count > max_count {
                    base = b;
                    max_count = count;
                }
                k += 1;
            }
            push_char(&mut consensus, base as char);
            index += 1;
        }
        Ok(consensus)
    }

    /// Format the counter output
    pub fn format_output(&self) -> (r: Result<String>)
        requires
            forall|b: u8| #[trigger]
                self.counter@.contains_key(b) ==> self.counter@[b]@.len() >= self.sequence_length,
        ensures
            r is Ok,
            r->Ok_0@ == report_of(self.counter@, self.sequence_length as nat),
    {
        let mut output = match self.consensus() {
            Ok(c) => c,
            Err(e) => return Err(e),
        };
        let ghost m = self.counter@;
        let ghost l = self.sequence_length as nat;
        let zero_row = zeros(self.sequence_length);
        let bases = [BASE_A, BASE_C, BASE_G, BASE_T];
        let mut k: usize = 0;
        while k < 4
            invariant
                k <= 4,
                m == self.counter@,
                l == self.sequence_length,
                zero_row@ == Seq::new(l, |i: int| 0usize),
                bases@ == seq![BASE_A, BASE_C, BASE_G, BASE_T],
                output@ == consensus_of(m, l) + (if k == 0 {
                    Seq::empty()
                } else if k == 1 {
                    profile_line(m, BASE_A, l)
                } else if k == 2 {
                    profile_line(m, BASE_A, l) + profile_line(m, BASE_C, l)
                } else if k == 3 {
                    profile_line(m, BASE_A, l) + profile_line(m, BASE_C, l) + profile_line(
                        m,
                        BASE_G,
                        l,
                    )
                } else {
                    profile_line(m, BASE_A, l) + profile_line(m, BASE_C, l) + profile_line(
                        m,
                        BASE_G,
                        l,
                    ) + profile_line(m, BASE_T, l)
                }),
            decreases 4 - k,
        {
            let base = bases[k];
            let ghost before = output@;
            push_char(&mut output, '\n');
            push_char(&mut output, base as char);
            push_char(&mut output, ':');
            let counts = match self.counter.get(&base) {
                Some(counts) => counts,
                None => &zero_row,
            };
            proof {
                assert(counts@ == row_of(m, base, l));
            }
            let mut j: usize = 0;
            while j < counts.len()
                invariant
                    j <= counts@.len(),
                    output@ == before + seq!['\n', base as char, ':'] + counts_text(
                        counts@.take(j as int),
                    ),
                decreases counts@.len() - j,
            {
                let ghost mid = output@;
                push_char(&mut output, ' ');
                push_decimal(&mut output, counts[j] as u128);
                j += 1;
                proof {
                    assert(counts@.take(j as int).drop_last() =~= counts@.take(j - 1));
                    assert(output@ =~= before + seq!['\n', base as char, ':'] + counts_text(
                        counts@.take(j as int),
                    ));
                }
            }
            proof {
                assert(counts@.take(j as int) =~= counts@);
            }
            k += 1;
            proof {
                assert(output@ =~= consensus_of(m, l) + (if k == 0 {
                    Seq::empty()
                } else if k == 1 {
                    profile_line(m, BASE_A, l)
                } else if k == 2 {
                    profile_line(m, BASE_A, l) + profile_line(m, BASE_C, l)
                } else if k == 3 {
                    profile_line(m, BASE_A, l) + profile_line(m, BASE_C, l) + profile_line(
                        m,
                        BASE_G,
                        l,
                    )
                } else {
                    profile_line(m, BASE_A, l) + profile_line(m, BASE_C, l) + profile_line(
                        m,
                        BASE_G,
                        l,
                    ) + profile_line(m, BASE_T, l)
                }));
            }
        }
        Ok(output)
    }
}

} // verus!
