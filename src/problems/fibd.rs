//! Rabbit pairs that die after a fixed number of months.
use crate::common::text::{parse_u128, split_char, split_spec, unsigned_within};
use crate::errors::{Error, ErrorKind, Result};
use vstd::prelude::*;

verus! {

/// Separator of the two input values.
pub const DELIMITER: char = ' ';

/// The two unsigned integers that the input holds, separated by one space.
pub open spec fn parse_pair(input: Seq<char>) -> Option<(nat, nat)> {
    let p = split_spec(input, DELIMITER);
    let max = u128::MAX as nat;
    if p.len() == 2 && unsigned_within(p[0], max) is Some && unsigned_within(p[1], max) is Some {
        Some((unsigned_within(p[0], max)->0, unsigned_within(p[1], max)->0))
    } else {
        None
    }
}

/// Parse input
pub fn parse_input(input: String) -> (r: Result<(u128, u128)>)
    ensures
        r is Ok <==> parse_pair(input@) is Some,
        r is Ok ==> parse_pair(input@) == Some(((r->Ok_0).0 as nat, (r->Ok_0).1 as nat)),
        r is Err ==> r->Err_0.spec_kind() == ErrorKind::IO,
{
    let input: Vec<&str> = split_char(input.as_str(), DELIMITER);
    proof {
        assert(input@.map_values(|p: &str| p@).len() == input@.len());
    }
    if input.len() != 2 {
        return Err(Error::new(ErrorKind::IO, "invalid input"));
    }
    proof {
        assert(input@.map_values(|p: &str| p@)[0] == input@[0]@);
        assert(input@.map_values(|p: &str| p@)[1] == input@[1]@);
    }
    let n = match parse_u128(input[0]) {
        Some(n) => n,
        None => return Err(Error::new(ErrorKind::IO, "invalid integer")),
    };
    let m = match parse_u128(input[1]) {
        Some(m) => m,
        None => return Err(Error::new(ErrorKind::IO, "invalid integer")),
    };
    Ok((n, m))
}

#[verifier::opaque]
/// Pairs alive in month `i + 1` when rabbits live `m` months: the two months
/// before added up, less the pairs that die now (the first pair dies in
/// month `m + 1`, the pairs born `m` months ago after it).
pub open spec fn alive(m: nat, i: nat) -> int
    decreases i,
{
    if i < 2 {
        1
    } else {
        let month = i - 2;
        let current = alive(m, (i - 1) as nat) + alive(m, (i - 2) as nat);
        if month == m - 2 {
            current - 1
        } else if month > m - 2 {
            current - alive(m, (month + 1 - m) as nat)
        } else {
            current
        }
    }
}

/// How the count of month `i` follows from the months before it.
pub proof fn lemma_alive_step(m: nat, i: nat)
    requires
        i >= 2,
    ensures
        alive(m, i) == if i - 2 == m - 2 {
            alive(m, (i - 1) as nat) + alive(m, (i - 2) as nat) - 1
        } else if i - 2 > m - 2 {
            alive(m, (i - 1) as nat) + alive(m, (i - 2) as nat) - alive(m, (i - 1 - m) as nat)
        } else {
            alive(m, (i - 1) as nat) + alive(m, (i - 2) as nat)
        },
{
    reveal(alive);
}

/// One pair lives in each of the first two months.
pub proof fn lemma_alive_start(m: nat)
    ensures
        alive(m, 0) == 1,
        alive(m, 1) == 1,
{
    reveal(alive);
}

/// Every month up to `n` stays within `u128`: the sum of the two months
/// before does not overflow, and the count after deaths is not negative.
pub open spec fn alive_fits(n: nat, m: nat) -> bool {
    forall|i: nat|
        2 <= i < n ==> alive(m, (i - 1) as nat) + alive(m, (i - 2) as nat) <= u128::MAX && #[trigger] alive(
            m,
            i,
        ) >= 0
}

/// The count of the month after those in `tracker`.
fn next_count(tracker: &Vec<u128>, m: u128, n: u128) -> (r: u128)
    requires
        m >= 2,
        2 <= tracker@.len() < n,
        n < usize::MAX,
        alive_fits(n as nat, m as nat),
        forall|j: int| 0 <= j < tracker@.len() ==> #[trigger] tracker@[j] == alive(m as nat, j as nat),
    ensures
        r == alive(m as nat, tracker@.len()),
{
    let len = tracker.len();
    let month = (len - 2) as u128;
    let ghost i = len as nat;
    proof {
        assert(tracker@[len - 1] == alive(m as nat, (i - 1) as nat));
        assert(tracker@[len - 2] == alive(m as nat, (i - 2) as nat));
        assert(alive(m as nat, i) >= 0);
        lemma_alive_step(m as nat, i);
    }
    let current = tracker[len - 1] + tracker[len - 2];
    if month == m - 2 {
        current - 1
    } else if month > m - 2 {
        let back = len - 1 - m as usize;
        proof {
            assert(tracker@[back as int] == alive(m as nat, back as nat));
        }
        current - tracker[back]
    } else {
        current
    }
}

/// Given lifespan m and n number of months, return the total number of pairs of rabbits
pub fn simulate(n: u128, m: u128) -> (r: u128)
    requires
        n <= 2 || m >= 2,
        n < usize::MAX,
        alive_fits(n as nat, m as nat),
    ensures
        r == if n <= 2 {
            1
        } else {
            alive(m as nat, (n - 1) as nat)
        },
{
    if n <= 2 {
        return 1;
    }
    let mut tracker: Vec<u128> = vec![1, 1];
    proof {
        lemma_alive_start(m as nat);
    }
    let mut month: u128 = 0;
    while month < n - 2
        invariant
            n > 2,
            m >= 2,
            n < usize::MAX,
            alive_fits(n as nat, m as nat),
            month <= n - 2,
            tracker@.len() == month + 2,
            forall|j: int| 0 <= j < tracker@.len() ==> #[trigger] tracker@[j] == alive(m as nat, j as nat),
        decreases n - 2 - month,
    {
        let current = next_count(&tracker, m, n);
        tracker.push(current);
        month += 1;
    }
    tracker[tracker.len() - 1]
}

} // verus!
