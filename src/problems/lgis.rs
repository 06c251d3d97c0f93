//! Increasing and decreasing subsequences of a permutation, by a greedy
//! count of how many later entries can follow each entry.
use crate::common::text::{
    parse_i64, push_char, push_signed_decimal, signed_decimal, split_char, split_spec,
};
use crate::errors::{Error, ErrorKind, Result};
use crate::problems::fib::i64_value;
use vstd::prelude::*;

verus! {

/// Separator of the two input lines.
pub const LINE_DELIMITER: char = '\n';

/// Separator of the entries.
pub const DELIMITER: char = ' ';

/// `f` holds of `a` and `b`.
pub open spec fn holds<F: Fn(i64, i64) -> bool>(f: F, a: i64, b: i64) -> bool {
    call_ensures(f, (a, b), true)
}

/// `f` can be called on any two entries and answers one way only.
pub open spec fn is_relation<F: Fn(i64, i64) -> bool>(f: F) -> bool {
    &&& forall|x: i64, y: i64| call_requires(f, (x, y))
    &&& forall|x: i64, y: i64| !(call_ensures(f, (x, y), true) && call_ensures(f, (x, y), false))
}

/// The count of entry `l` after the entries from `r` to the end were looked
/// at, last first: it goes up by one for each entry that `l` relates to and
/// whose own count is at least `l`'s so far.
pub open spec fn count_after<F: Fn(i64, i64) -> bool>(pi: Seq<i64>, f: F, l: int, r: int) -> nat
    decreases pi.len() - l, pi.len() - r,
{
    if l < 0 || r <= l || r >= pi.len() {
        0
    } else {
        let v = count_after(pi, f, l, r + 1);
        if holds(f, pi[l], pi[r]) && v <= count_after(pi, f, r, r + 1) {
            v + 1
        } else {
            v
        }
    }
}

/// The final count of entry `l`.
pub open spec fn order_of<F: Fn(i64, i64) -> bool>(pi: Seq<i64>, f: F, l: int) -> nat {
    count_after(pi, f, l, l + 1)
}

/// The largest of `order`, zero for none.
pub open spec fn max_of(order: Seq<usize>) -> nat
    decreases order.len(),
{
    if order.len() == 0 {
        0
    } else {
        let m = max_of(order.drop_last());
        if order.last() as nat > m {
            order.last() as nat
        } else {
            m
        }
    }
}

/// The entries from `i` on whose count is the running target, which starts
/// at `target` and goes down by one at each pick.
pub open spec fn chain_from(pi: Seq<i64>, order: Seq<usize>, i: int, target: int) -> Seq<i64>
    decreases order.len() - i,
{
    if i < 0 || i >= order.len() {
        Seq::empty()
    } else if order[i] as int == target {
        seq![pi[i]] + chain_from(pi, order, i + 1, target - 1)
    } else {
        chain_from(pi, order, i + 1, target)
    }
}

/// Entries in decimal, separated by single spaces.
pub open spec fn joined_signed(v: Seq<i64>) -> Seq<char>
    decreases v.len(),
{
    if v.len() == 0 {
        Seq::empty()
    } else if v.len() == 1 {
        signed_decimal(v[0] as int)
    } else {
        joined_signed(v.drop_last()) + seq![' '] + signed_decimal(v.last() as int)
    }
}

/// The entries of the second input line, or `None` if the input is not two
/// lines or an entry is no `i64`.
pub open spec fn parse_entries(input: Seq<char>) -> Option<Seq<i64>> {
    let lines = split_spec(input, LINE_DELIMITER);
    if lines.len() != 2 {
        None
    } else {
        let items = split_spec(lines[1], DELIMITER);
        if forall|k: int| 0 <= k < items.len() ==> #[trigger] i64_value(items[k]) is Some {
            Some(Seq::new(items.len(), |k: int| i64_value(items[k])->0 as i64))
        } else {
            None
        }
    }
}

/// The entries, separated by spaces.
pub fn format_output(output: &[i64]) -> (r: String)
    ensures
        r@ == joined_signed(output@),
{
    let mut s = String::new();
    let mut i: usize = 0;
    while i < output.len()
        invariant
            i <= output@.len(),
            s@ == joined_signed(output@.take(i as int)),
        decreases output@.len() - i,
    {
        if i > 0 {
            push_char(&mut s, ' ');
        }
        push_signed_decimal(&mut s, output[i]);
        i += 1;
        proof {
            assert(output@.take(i as int).drop_last() =~= output@.take(i - 1));
        }
    }
    proof {
        assert(output@.take(i as int) =~= output@);
    }
    s
}

/// Parse input
pub fn parse_input(input: String) -> (r: Result<Vec<i64>>)
    ensures
        r is Ok <==> parse_entries(input@) is Some,
        r is Ok ==> r->Ok_0@ == parse_entries(input@)->0,
        r is Err ==> r->Err_0.spec_kind() == ErrorKind::IO,
{
    let lines: Vec<&str> = split_char(input.as_str(), LINE_DELIMITER);
    proof {
        assert(lines@.map_values(|p: &str| p@).len() == lines@.len());
    }
    if lines.len() != 2 {
        return Err(Error::new(ErrorKind::IO, "invalid input"));
    }
    proof {
        assert(lines@.map_values(|p: &str| p@)[1] == lines@[1]@);
    }
    let items: Vec<&str> = split_char(lines[1], DELIMITER);
    let ghost views = items@.map_values(|p: &str| p@);
    let mut pi: Vec<i64> = Vec::new();
    let mut k: usize = 0;
    while k < items.len()
        invariant
            views == items@.map_values(|p: &str| p@),
            views == split_spec(split_spec(input@, LINE_DELIMITER)[1], DELIMITER),
            k <= items@.len(),
            pi@.len() == k,
            forall|t: int| 0 <= t < k ==> #[trigger] i64_value(views[t]) is Some,
            forall|t: int| 0 <= t < k ==> pi@[t] == i64_value(#[trigger] views[t])->0,
        decreases items@.len() - k,
    {
        proof {
            assert(views[k as int] == items@[k as int]@);
        }
        match parse_i64(items[k]) {
            Some(v) => pi.push(v),
            None => return Err(Error::new(ErrorKind::IO, "invalid integer")),
        }
        k += 1;
    }
    proof {
        assert(pi@ =~= Seq::new(views.len(), |t: int| i64_value(views[t])->0 as i64));
    }
    Ok(pi)
}

/// Return the longest increasing or decreasing depending on comp_func
pub fn longest<F: Fn(i64, i64) -> bool>(pi: &[i64], comp_func: F) -> (r: Vec<i64>)
    requires
        1 <= pi@.len() <= i64::MAX,
        is_relation(comp_func),
    ensures
        ({
            let order = Seq::new(pi@.len(), |l: int| order_of(pi@, comp_func, l) as usize);
            r@ == chain_from(pi@, order, 0, max_of(order) as int)
        }),
{
    let order = get_order(pi, &comp_func);
    proof {
        assert(order@ =~= Seq::new(pi@.len(), |l: int| order_of(pi@, comp_func, l) as usize));
    }
    order_to_result(pi, order)
}

/// Given pi, return an order vector
pub fn get_order<F: Fn(i64, i64) -> bool>(pi: &[i64], comp_func: &F) -> (r: Vec<usize>)
    requires
        pi@.len() >= 1,
        is_relation(*comp_func),
    ensures
        r@.len() == pi@.len(),
        forall|l: int| 0 <= l < pi@.len() ==> #[trigger] r@[l] == order_of(pi@, *comp_func, l),
        forall|l: int| 0 <= l < pi@.len() ==> #[trigger] r@[l] < pi@.len(),
{
    let n = pi.len();
    let mut order: Vec<usize> = Vec::new();
    let mut t: usize = 0;
    while t < n
        invariant
            t <= n,
            n == pi@.len(),
            order@.len() == t,
            forall|j: int| 0 <= j < t ==> #[trigger] order@[j] == 0,
        decreases n - t,
    {
        order.push(0);
        t += 1;
    }
    proof {
        assert(order@[n - 1] == order_of(pi@, *comp_func, n - 1));
    }
    let mut left: usize = n - 1;
    while left > 0
        invariant
            left < n,
            n == pi@.len(),
            is_relation(*comp_func),
            order@.len() == n,
            forall|j: int| 0 <= j < left ==> #[trigger] order@[j] == 0,
            forall|j: int| left <= j < n ==> #[trigger] order@[j] == order_of(pi@, *comp_func, j),
            forall|j: int| 0 <= j < n ==> #[trigger] order@[j] < n,
        decreases left,
    {
        left -= 1;
        let l = left;
        let mut right: usize = n;
        while right > l + 1
            invariant
                l < right <= n,
                l + 1 < n || right == l + 1,
                n == pi@.len(),
                is_relation(*comp_func),
                order@.len() == n,
                forall|j: int| 0 <= j < l ==> #[trigger] order@[j] == 0,
                forall|j: int| l < j < n ==> #[trigger] order@[j] == order_of(pi@, *comp_func, j),
                order@[l as int] == count_after(pi@, *comp_func, l as int, right as int),
                order@[l as int] <= n - right,
                forall|j: int| 0 <= j < n ==> #[trigger] order@[j] < n,
            decreases right,
        {
            right -= 1;
            let related = comp_func(pi[l], pi[right]);
            proof {
                assert(related == holds(*comp_func, pi@[l as int], pi@[right as int]));
                assert(order@[right as int] == count_after(pi@, *comp_func, right as int, right + 1));
            }
            if related && order[l] <= order[right] {
                let v = order[l];
                order.set(l, v + 1);
            }
        }
    }
    order
}

/// Convert order to result
pub fn order_to_result(pi: &[i64], order: Vec<usize>) -> (r: Vec<i64>)
    requires
        order@.len() <= pi@.len(),
        forall|i: int| 0 <= i < order@.len() ==> #[trigger] order@[i] <= i64::MAX,
    ensures
        r@ == chain_from(pi@, order@, 0, max_of(order@) as int),
{
    let mut max: usize = 0;
    let mut k: usize = 0;
    while k < order.len()
        invariant
            k <= order@.len(),
            max == max_of(order@.take(k as int)),
            forall|i: int| 0 <= i < order@.len() ==> #[trigger] order@[i] <= i64::MAX,
            max <= i64::MAX,
        decreases order@.len() - k,
    {
        proof {
            assert(order@.take(k + 1).drop_last() =~= order@.take(k as int));
        }
        if order[k] > max {
            max = order[k];
        }
        k += 1;
    }
    proof {
        assert(order@.take(k as int) =~= order@);
    }
    let mut target: i64 = max as i64;
    let mut result: Vec<i64> = Vec::new();
    let mut ind: usize = 0;
    while ind < order.len()
        invariant
            ind <= order@.len(),
            order@.len() <= pi@.len(),
            forall|i: int| 0 <= i < order@.len() ==> #[trigger] order@[i] <= i64::MAX,
            0 <= max_of(order@) <= i64::MAX,
            max_of(order@) - ind <= target <= max_of(order@),
            result@ + chain_from(pi@, order@, ind as int, target as int) == chain_from(
                pi@,
                order@,
                0,
                max_of(order@) as int,
            ),
        decreases order@.len() - ind,
    {
        let ghost before = result@;
        if order[ind] as i64 == target {
            result.push(pi[ind]);
            target -= 1;
            proof {
                assert(result@ + chain_from(pi@, order@, ind + 1, target as int) =~= before
                    + chain_from(pi@, order@, ind as int, target + 1));
            }
        }
        ind += 1;
    }
    proof {
        assert(result@ + Seq::<i64>::empty() =~= result@);
    }
    result
}

} // verus!
