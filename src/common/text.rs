//! Text helpers: the standard string operations the crate relies on, with
//! their contracts, and decimal rendering of integers.
use std::collections::{BTreeMap, BTreeSet};
use vstd::prelude::*;
use vstd::std_specs::iter::IteratorSpec;
use vstd::string::StrSliceExecFns;
use vstd::utf8::{decode_utf8, valid_utf8};

verus! {

broadcast use vstd::string::group_string_axioms;

/// A character with the Unicode `White_Space` property.
pub open spec fn is_white_space(c: char) -> bool {
    let u = c as u32;
    ||| 0x9 <= u <= 0xd
    ||| u == 0x20
    ||| u == 0x85
    ||| u == 0xa0
    ||| u == 0x1680
    ||| 0x2000 <= u <= 0x200a
    ||| u == 0x2028
    ||| u == 0x2029
    ||| u == 0x202f
    ||| u == 0x205f
    ||| u == 0x3000
}

/// `s` without its leading white space.
pub open spec fn trim_start(s: Seq<char>) -> Seq<char>
    decreases s.len(),
{
    if s.len() > 0 && is_white_space(s[0]) {
        trim_start(s.drop_first())
    } else {
        s
    }
}

/// `s` without its trailing white space.
pub open spec fn trim_end(s: Seq<char>) -> Seq<char>
    decreases s.len(),
{
    if s.len() > 0 && is_white_space(s.last()) {
        trim_end(s.drop_last())
    } else {
        s
    }
}

/// `s` without leading and trailing white space.
pub open spec fn trimmed(s: Seq<char>) -> Seq<char> {
    trim_end(trim_start(s))
}

/// The pieces of `s` between the occurrences of `sep`, in order; there is
/// always at least one piece.
pub open spec fn split_spec(s: Seq<char>, sep: char) -> Seq<Seq<char>>
    decreases s.len(),
{
    if s.len() == 0 {
        seq![Seq::empty()]
    } else {
        let rest = split_spec(s.drop_first(), sep);
        if s[0] == sep {
            seq![Seq::empty()] + rest
        } else {
            rest.update(0, seq![s[0]] + rest[0])
        }
    }
}

/// The decimal digit `d` as a character.
pub open spec fn digit_char(d: nat) -> char {
    (d + 48) as char
}

/// The decimal digits of `n`, most significant first, without leading zeros.
pub open spec fn decimal(n: nat) -> Seq<char>
    decreases n,
{
    if n < 10 {
        seq![digit_char(n)]
    } else {
        decimal(n / 10).push(digit_char(n % 10))
    }
}

/// The decimal rendering of a signed integer: a `-` before negative values.
pub open spec fn signed_decimal(n: int) -> Seq<char> {
    if n < 0 {
        seq!['-'] + decimal((-n) as nat)
    } else {
        decimal(n as nat)
    }
}

/// A character `0` to `9`.
pub open spec fn is_digit(c: char) -> bool {
    '0' <= c <= '9'
}

/// A non-empty run of decimal digits.
pub open spec fn is_digits(s: Seq<char>) -> bool {
    s.len() > 0 && forall|i: int| 0 <= i < s.len() ==> is_digit(#[trigger] s[i])
}

/// The value of a run of decimal digits.
pub open spec fn digits_value(s: Seq<char>) -> nat
    decreases s.len(),
{
    if s.len() == 0 {
        0
    } else {
        digits_value(s.drop_last()) * 10 + (s.last() as nat - 48) as nat
    }
}

/// The value of an unsigned integer literal: an optional `+`, then digits.
pub open spec fn unsigned_literal(s: Seq<char>) -> Option<nat> {
    if s.len() > 0 && s[0] == '+' && is_digits(s.drop_first()) {
        Some(digits_value(s.drop_first()))
    } else if is_digits(s) {
        Some(digits_value(s))
    } else {
        None
    }
}

/// The value of a signed integer literal: an optional `+` or `-`, then digits.
pub open spec fn signed_literal(s: Seq<char>) -> Option<int> {
    if s.len() > 0 && s[0] == '-' && is_digits(s.drop_first()) {
        Some(-digits_value(s.drop_first()))
    } else {
        match unsigned_literal(s) {
            Some(v) => Some(v as int),
            None => None,
        }
    }
}

/// Relies on `String::push`: the character is appended.
#[verifier::external_body]
pub(crate) fn push_char(s: &mut String, c: char)
    ensures
        final(s)@ == old(s)@.push(c),
{
    s.push(c)
}

/// Relies on `str::trim`: leading and trailing `White_Space` characters are
/// removed, nothing else.
#[verifier::external_body]
pub(crate) fn trim(s: &str) -> (r: &str)
    ensures
        r@ == trimmed(s@),
{
    s.trim()
}

/// Relies on `String::from_utf8`: it succeeds exactly on well-formed UTF-8,
/// and the string holds the characters that the bytes encode.
#[verifier::external_body]
pub(crate) fn string_from_utf8(bytes: Vec<u8>) -> (r: Option<String>)
    ensures
        r is Some <==> valid_utf8(bytes@),
        r is Some ==> r->0@ == decode_utf8(bytes@),
{
    String::from_utf8(bytes).ok()
}

/// `s` starts with `c`.
pub fn starts_with_char(s: &str, c: char) -> (r: bool)
    ensures
        r == (s@.len() > 0 && s@[0] == c),
{
    !s.is_empty() && s.get_char(0) == c
}

/// The rest of `s` after a leading `c`.
pub fn strip_prefix_char(s: &str, c: char) -> (r: Option<&str>)
    ensures
        r is Some <==> (s@.len() > 0 && s@[0] == c),
        r is Some ==> r->0@ == s@.drop_first(),
{
    if starts_with_char(s, c) {
        let rest = s.substring_char(1, s.unicode_len());
        proof {
            assert(rest@ =~= s@.drop_first());
        }
        Some(rest)
    } else {
        None
    }
}

/// Relies on `str::split` with a `char` pattern: the pieces between the
/// separators, in order.
#[verifier::external_body]
pub(crate) fn split_char(s: &str, sep: char) -> (r: Vec<&str>)
    ensures
        r@.map_values(|p: &str| p@) == split_spec(s@, sep),
{
    s.split(sep).collect()
}

/// Appends the decimal digits of `n`.
pub fn push_decimal(s: &mut String, n: u128)
    ensures
        final(s)@ == old(s)@ + decimal(n as nat),
    decreases n,
{
    if n >= 10 {
        push_decimal(s, n / 10);
    }
    push_char(s, ((n % 10) as u8 + 48) as char);
    proof {
        assert(((n % 10) as u8 + 48) as char == digit_char((n % 10) as nat));
    }
}

/// Appends the decimal rendering of `n`, with a `-` before negative values.
pub fn push_signed_decimal(s: &mut String, n: i64)
    ensures
        final(s)@ == old(s)@ + signed_decimal(n as int),
{
    if n < 0 {
        push_char(s, '-');
        let m: u128 = (0i128 - n as i128) as u128;
        push_decimal(s, m);
    } else {
        push_decimal(s, n as u128);
    }
}

/// `s` with every match of the non-empty `pat` taken out, matches found
/// from the left and not overlapping; `s` itself for an empty `pat`.
pub open spec fn remove_all(s: Seq<char>, pat: Seq<char>) -> Seq<char>
    decreases s.len(),
{
    if s.len() == 0 {
        Seq::empty()
    } else if 0 < pat.len() <= s.len() && s.take(pat.len() as int) == pat {
        remove_all(s.skip(pat.len() as int), pat)
    } else {
        seq![s[0]] + remove_all(s.drop_first(), pat)
    }
}

/// The value that an unsigned literal denotes, if it fits below `max`.
pub open spec fn unsigned_within(s: Seq<char>, max: nat) -> Option<nat> {
    match unsigned_literal(s) {
        Some(v) => if v <= max {
            Some(v)
        } else {
            None
        },
        None => None,
    }
}

/// Relies on `str::replace` with an empty replacement: every match of `pat`,
/// from the left and without overlap, is taken out.
#[verifier::external_body]
pub(crate) fn remove_matches(s: &str, pat: &str) -> (r: String)
    ensures
        r@ == remove_all(s@, pat@),
{
    s.replace(pat, "")
}

/// Relies on `str::split_once` with a `char` pattern: the text before and
/// after the first `sep`.
#[verifier::external_body]
pub(crate) fn split_once_char(s: &str, sep: char) -> (r: Option<(&str, &str)>)
    ensures
        r is Some <==> split_spec(s@, sep).len() > 1,
        r is Some ==> (r->0).0@ == split_spec(s@, sep)[0] && (r->0).1@ == s@.skip(
            split_spec(s@, sep)[0].len() as int + 1,
        ),
{
    s.split_once(sep)
}

/// Relies on `usize`'s `FromStr`: an optional `+` and decimal digits whose
/// value fits.
#[verifier::external_body]
pub(crate) fn parse_usize(s: &str) -> (r: Option<usize>)
    ensures
        r is Some <==> unsigned_within(s@, usize::MAX as nat) is Some,
        r is Some ==> r->0 == unsigned_within(s@, usize::MAX as nat)->0,
{
    s.parse::<usize>().ok()
}

/// Relies on `u32`'s `FromStr`: an optional `+` and decimal digits whose
/// value fits.
#[verifier::external_body]
pub(crate) fn parse_u32(s: &str) -> (r: Option<u32>)
    ensures
        r is Some <==> unsigned_within(s@, u32::MAX as nat) is Some,
        r is Some ==> r->0 == unsigned_within(s@, u32::MAX as nat)->0,
{
    s.parse::<u32>().ok()
}

/// Relies on `u128`'s `FromStr`: an optional `+` and decimal digits whose
/// value fits.
#[verifier::external_body]
pub(crate) fn parse_u128(s: &str) -> (r: Option<u128>)
    ensures
        r is Some <==> unsigned_within(s@, u128::MAX as nat) is Some,
        r is Some ==> r->0 == unsigned_within(s@, u128::MAX as nat)->0,
{
    s.parse::<u128>().ok()
}

/// Relies on `i64`'s `FromStr`: an optional sign and decimal digits whose
/// value fits.
#[verifier::external_body]
pub(crate) fn parse_i64(s: &str) -> (r: Option<i64>)
    ensures
        r is Some <==> (signed_literal(s@) matches Some(v) && i64::MIN <= v <= i64::MAX),
        r is Some ==> r->0 == signed_literal(s@)->0,
{
    s.parse::<i64>().ok()
}

/// The characters of `s`, in order.
pub fn chars_of(s: &str) -> (r: Vec<char>)
    ensures
        r@ == s@,
{
    let mut v: Vec<char> = Vec::new();
    let mut it = s.chars();
    loop
        invariant
            v@ + it.remaining() == s@,
        ensures
            v@ == s@,
        decreases s@.len() - v@.len(),
    {
        match it.next() {
            Some(c) => {
                let ghost before = v@;
                v.push(c);
                proof {
                    assert(v@ =~= before.push(c));
                }
            },
            None => {
                proof {
                    assert(v@ + it.remaining() == v@);
                }
                break;
            },
        }
    }
    v
}

/// Text without the separator is one piece: itself.
pub proof fn lemma_split_single(s: Seq<char>, sep: char)
    requires
        split_spec(s, sep).len() == 1,
    ensures
        split_spec(s, sep)[0] == s,
    decreases s.len(),
{
    if s.len() > 0 {
        let rest = split_spec(s.drop_first(), sep);
        lemma_split_nonempty(s.drop_first(), sep);
        if s[0] != sep {
            lemma_split_single(s.drop_first(), sep);
            assert(seq![s[0]] + s.drop_first() =~= s);
        }
    }
}

/// Splitting gives at least one piece.
pub proof fn lemma_split_nonempty(s: Seq<char>, sep: char)
    ensures
        split_spec(s, sep).len() >= 1,
    decreases s.len(),
{
    if s.len() > 0 {
        lemma_split_nonempty(s.drop_first(), sep);
    }
}

/// `pat` occurs in `s` as a contiguous run.
pub open spec fn is_infix(pat: Seq<char>, s: Seq<char>) -> bool {
    exists|i: int| 0 <= i <= s.len() - pat.len() && #[trigger] s.subrange(i, i + pat.len()) == pat
}

/// Relies on `str::contains` with a `&str` pattern.
#[verifier::external_body]
pub(crate) fn contains_str(s: &str, pat: &str) -> (r: bool)
    ensures
        r == is_infix(pat@, s@),
{
    s.contains(pat)
}

/// Relies on `BTreeSet`'s `FromIterator`: the set holds exactly the given
/// strings.
#[verifier::external_body]
pub(crate) fn string_set(v: Vec<String>) -> (r: BTreeSet<String>)
    ensures
        r@.map(|x: String| x@) == v@.map_values(|x: String| x@).to_set(),
{
    BTreeSet::from_iter(v)
}

/// Relies on `BTreeMap`'s `FromIterator` on pairs with distinct keys: each
/// key maps to its value.
#[verifier::external_body]
pub(crate) fn char_map(pairs: Vec<(char, usize)>) -> (r: BTreeMap<char, usize>)
    requires
        forall|i: int, j: int|
            0 <= i < j < pairs@.len() ==> (#[trigger] pairs@[i]).0 != (#[trigger] pairs@[j]).0,
    ensures
        forall|k: char|
            (#[trigger] r@.contains_key(k)) == (exists|i: int|
                0 <= i < pairs@.len() && pairs@[i].0 == k),
        forall|i: int| 0 <= i < pairs@.len() ==> r@[(#[trigger] pairs@[i]).0] == pairs@[i].1,
{
    BTreeMap::from_iter(pairs)
}

/// Relies on `BTreeMap::get` for `char` keys.
#[verifier::external_body]
pub(crate) fn char_map_get(m: &BTreeMap<char, usize>, k: char) -> (r: Option<usize>)
    ensures
        r == if m@.contains_key(k) {
            Some(m@[k])
        } else {
            None
        },
{
    m.get(&k).copied()
}

} // verus!
