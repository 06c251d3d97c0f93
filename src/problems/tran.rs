//! Transitions and transversions between two DNA strings.
use crate::common::dna::is_dna_base;
use crate::errors::{Error, ErrorKind, Result};
use vstd::prelude::*;

verus! {

/// How two bases at one position relate.
#[derive(Debug, Clone, Copy, PartialEq, Eq, Structural)]
pub enum Kind {
    /// A purine for a pyrimidine or the other way round.
    Transversion,
    /// A purine for the other purine, or a pyrimidine for the other.
    Transition,
    /// The same symbol.
    Match,
    /// A symbol that is no DNA base.
    Unknown,
}

/// `A` or `G`.
pub open spec fn is_purine(b: u8) -> bool {
    b as char == 'A' || b as char == 'G'
}

/// How `a` and `b` relate.
pub open spec fn kind_of(a: u8, b: u8) -> Kind {
    if a == b {
        Kind::Match
    } else if !is_dna_base(a) || !is_dna_base(b) {
        Kind::Unknown
    } else if is_purine(a) == is_purine(b) {
        Kind::Transition
    } else {
        Kind::Transversion
    }
}

/// The number of positions below `n` where `s` and `t` relate by `kind`.
pub open spec fn count_kind(s: Seq<u8>, t: Seq<u8>, n: int, kind: Kind) -> nat
    decreases n,
{
    if n <= 0 {
        0
    } else {
        count_kind(s, t, n - 1, kind) + if kind_of(s[n - 1], t[n - 1]) == kind {
            1nat
        } else {
            0nat
        }
    }
}

/// Counter counts transitions and transversions
#[derive(Debug, PartialEq)]
pub struct Counter {
    pub transition: usize,
    pub transversion: usize,
}

impl Counter {
    /// A counter with nothing counted.
    pub fn new() -> (r: Self)
        ensures
            r.transition == 0 && r.transversion == 0,
    {
        Counter { transition: 0, transversion: 0 }
    }

    /// Adds the transitions and transversions between two strings of equal
    /// length.
    pub fn count(&mut self, s_1: &[u8], s_2: &[u8]) -> (r: Result<()>)
        requires
            old(self).transition + s_1@.len() <= usize::MAX,
            old(self).transversion + s_1@.len() <= usize::MAX,
        ensures
            r is Ok <==> s_1@.len() == s_2@.len(),
            r is Ok ==> final(self).transition == old(self).transition + count_kind(
                s_1@,
                s_2@,
                s_1@.len() as int,
                Kind::Transition,
            ) && final(self).transversion == old(self).transversion + count_kind(
                s_1@,
                s_2@,
                s_1@.len() as int,
                Kind::Transversion,
            ),
            r is Err ==> *final(self) == *old(self) && r->Err_0.spec_kind() == ErrorKind::User,
    {
        if s_1.len() != s_2.len() {
            return Err(Error::new(ErrorKind::User, "s_1 and s_2 must have the same length"));
        }
        let ghost t0 = self.transition as int;
        let ghost v0 = self.transversion as int;
        let mut i: usize = 0;
        while i < s_1.len()
            invariant
                i <= s_1@.len(),
                s_1@.len() == s_2@.len(),
                t0 + s_1@.len() <= usize::MAX,
                v0 + s_1@.len() <= usize::MAX,
                self.transition == t0 + count_kind(s_1@, s_2@, i as int, Kind::Transition),
                self.transversion == v0 + count_kind(s_1@, s_2@, i as int, Kind::Transversion),
                count_kind(s_1@, s_2@, i as int, Kind::Transition) <= i,
                count_kind(s_1@, s_2@, i as int, Kind::Transversion) <= i,
            decreases s_1@.len() - i,
        {
            match classify(&s_1[i], &s_2[i]) {
                Kind::Transition => self.transition += 1,
                Kind::Transversion => self.transversion += 1,
                _ => {},
            }
            i += 1;
        }
        Ok(())
    }
}

/// Classify the substitution from `b_1` to `b_2`.
pub fn classify(b_1: &u8, b_2: &u8) -> (r: Kind)
    ensures
        r == kind_of(*b_1, *b_2),
{
    if *b_1 == *b_2 {
        return Kind::Match;
    }
    match (*b_1 as char, *b_2 as char) {
        ('A', 'G') | ('G', 'A') | ('C', 'T') | ('T', 'C') => Kind::Transition,
        ('A', 'C') | ('A', 'T') => Kind::Transversion,
        ('C', 'A') | ('C', 'G') => Kind::Transversion,
        ('T', 'A') | ('T', 'G') => Kind::Transversion,
        ('G', 'C') | ('G', 'T') => Kind::Transversion,
        _ => Kind::Unknown,
    }
}

} // verus!
