//! Rabbit pairs whose reproductive pairs each bear a litter every month.
use crate::common::text::{parse_i64, signed_literal, split_char, split_spec};
use crate::errors::{Error, ErrorKind, Result};
use vstd::prelude::*;

verus! {

/// Separator of the two input values.
pub const DELIMITER: char = ' ';

/// The value of a signed literal that fits an `i64`.
pub open spec fn i64_value(s: Seq<char>) -> Option<int> {
    match signed_literal(s) {
        Some(v) => if i64::MIN <= v <= i64::MAX {
            Some(v)
        } else {
            None
        },
        None => None,
    }
}

/// The two integers that the input holds, separated by one space.
pub open spec fn parse_pair(input: Seq<char>) -> Option<(int, int)> {
    let p = split_spec(input, DELIMITER);
    if p.len() == 2 && i64_value(p[0]) is Some && i64_value(p[1]) is Some {
        Some((i64_value(p[0])->0, i64_value(p[1])->0))
    } else {
        None
    }
}

/// Parse input
///
/// Parse input into k and n and return an error if the input is invalid
///
pub fn parse_input(input: String) -> (r: Result<(i64, i64)>)
    ensures
        r is Ok <==> parse_pair(input@) is Some,
        r is Ok ==> parse_pair(input@) == Some(((r->Ok_0).0 as int, (r->Ok_0).1 as int)),
        r is Err ==> r->Err_0.spec_kind() == ErrorKind::IO,
{
    let input: Vec<&str> = split_char(input.as_str(), DELIMITER);
    proof {
        assert(input@.map_values(|p: &str| p@).len() == input@.len());
    }
    if input.len() != 2 {
        return Err(Error::new(ErrorKind::IO, "invalid input"));
    }
    proof {
        assert(input@.map_values(|p: &str| p@)[0] == input@[0]@);
        assert(input@.map_values(|p: &str| p@)[1] == input@[1]@);
    }
    let n = match parse_i64(input[0]) {
        Some(n) => n,
        None => return Err(Error::new(ErrorKind::IO, "invalid integer")),
    };
    let k = match parse_i64(input[1]) {
        Some(k) => k,
        None => return Err(Error::new(ErrorKind::IO, "invalid integer")),
    };
    Ok((n, k))
}

/// The newborn and reproductive pairs `j` months after a population of
/// `newborn` and `reproductive` pairs, each reproductive pair bearing `k`.
pub open spec fn evolve(newborn: int, reproductive: int, k: int, j: nat) -> (int, int)
    decreases j,
{
    if j == 0 {
        (newborn, reproductive)
    } else {
        let (b, r) = evolve(newborn, reproductive, k, (j - 1) as nat);
        (r * k, b + r)
    }
}

/// One month from `(b, r)` stays within `i64`.
pub open spec fn step_fits(s: (int, int), k: int) -> bool {
    i64::MIN <= s.1 * k <= i64::MAX && i64::MIN <= s.0 + s.1 <= i64::MAX
}

/// Population represents the rabbit populations
pub struct Population {
    /// Number of newborn rabbit pairs for the current cycle
    pub newborn: i64,
    /// Number of reproductive rabbit pairs for the current cycle
    pub reproductive: i64,
    /// The number of rabbit pairs producted by each reproductive pairs per cycle
    pub k: i64,
}

impl Population {
    /// Constructor for Population
    pub fn new(k: i64) -> (r: Self)
        ensures
            r.newborn == 1 && r.reproductive == 0 && r.k == k,
    {
        Self { newborn: 1, reproductive: 0, k }
    }

    /// Total number of rabbit pairs in the population
    pub fn total(&self) -> (r: i64)
        requires
            i64::MIN <= self.newborn + self.reproductive <= i64::MAX,
        ensures
            r == self.newborn + self.reproductive,
    {
        self.newborn + self.reproductive
    }

    /// Advances one cycle
    pub fn advance(&mut self)
        requires
            step_fits((old(self).newborn as int, old(self).reproductive as int), old(self).k as int),
        ensures
            final(self).newborn == old(self).reproductive * old(self).k,
            final(self).reproductive == old(self).newborn + old(self).reproductive,
            final(self).k == old(self).k,
    {
        let newborn = self.reproductive * self.k;
        self.reproductive = self.total();
        self.newborn = newborn;
    }

    /// Whether `n` cycles can be advanced without leaving `i64`.
    pub fn can_advance_n(&self, n: i64) -> (r: bool)
        ensures
            r == (n > i64::MIN && forall|j: nat|
                j < n - 1 ==> step_fits(
                    #[trigger] evolve(self.newborn as int, self.reproductive as int, self.k as int, j),
                    self.k as int,
                )),
    {
        if n == i64::MIN {
            return false;
        }
        let ghost b0 = self.newborn as int;
        let ghost r0 = self.reproductive as int;
        let k = self.k;
        let mut b: i64 = self.newborn;
        let mut r: i64 = self.reproductive;
        let mut i: i64 = 0;
        while i < n - 1
            invariant
                0 <= i,
                n > i64::MIN,
                i <= n - 1 || i == 0,
                k == self.k,
                b0 == self.newborn,
                r0 == self.reproductive,
                forall|j: nat| j < i ==> step_fits(#[trigger] evolve(b0, r0, k as int, j), k as int),
                (b as int, r as int) == evolve(b0, r0, k as int, i as nat),
            decreases n - 1 - i,
        {
            proof {
                let (ri, ki) = (r as int, k as int);
                assert(-0x8000_0000_0000_0000 * 0x8000_0000_0000_0000 <= ri * ki <= 0x8000_0000_0000_0000
                    * 0x8000_0000_0000_0000) by (nonlinear_arith)
                    requires
                        -0x8000_0000_0000_0000 <= ri <= 0x7fff_ffff_ffff_ffff,
                        -0x8000_0000_0000_0000 <= ki <= 0x7fff_ffff_ffff_ffff,
                ;
            }
            let product = r as i128 * k as i128;
            let sum = b as i128 + r as i128;
            if product < i64::MIN as i128 || product > i64::MAX as i128 || sum < i64::MIN as i128
                || sum > i64::MAX as i128 {
                proof {
                    assert(!step_fits(evolve(b0, r0, k as int, i as nat), k as int));
                }
                return false;
            }
            b = product as i64;
            r = sum as i64;
            i += 1;
            proof {
                assert forall|j: nat| j < i implies step_fits(
                    #[trigger] evolve(b0, r0, k as int, j),
                    k as int,
                ) by {
                    if j < i - 1 {
                    } else {
                        assert(j == i - 1);
                    }
                }
            }
        }
        true
    }

    /// Advance n cycles
    pub fn advance_n(&mut self, n: i64)
        requires
            n > i64::MIN,
            forall|j: nat|
                j < n - 1 ==> step_fits(
                    #[trigger] evolve(
                        old(self).newborn as int,
                        old(self).reproductive as int,
                        old(self).k as int,
                        j,
                    ),
                    old(self).k as int,
                ),
        ensures
            final(self).k == old(self).k,
            (final(self).newborn as int, final(self).reproductive as int) == evolve(
                old(self).newborn as int,
                old(self).reproductive as int,
                old(self).k as int,
                if n > 1 {
                    (n - 1) as nat
                } else {
                    0
                },
            ),
    {
        let ghost b0 = self.newborn as int;
        let ghost r0 = self.reproductive as int;
        let ghost k = self.k as int;
        let mut i: i64 = 0;
        while i < n - 1
            invariant
                0 <= i,
                n > i64::MIN,
                i <= n - 1 || i == 0,
                self.k == k,
                forall|j: nat| j < n - 1 ==> step_fits(#[trigger] evolve(b0, r0, k, j), k),
                (self.newborn as int, self.reproductive as int) == evolve(b0, r0, k, i as nat),
            decreases n - 1 - i,
        {
            self.advance();
            i += 1;
        }
    }
}

} // verus!
