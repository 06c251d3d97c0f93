//! The substrings that a collection of DNA strings share.
use crate::common::fasta::{collect_records, lemma_iter_progress, remaining, Reader, Record, RecordView};
use crate::common::text::{contains_str, is_infix, string_from_utf8, string_set};
use crate::errors::{Error, ErrorKind, Result};
use std::collections::BTreeSet;
use vstd::prelude::*;
use vstd::string::StringSliceAdditionalSpecFns;
use vstd::utf8::{decode_utf8, encode_utf8, valid_utf8};

verus! {

/// The stretches of `d` of length `len` and longer, shortest first, each
/// length from left to right, starting with the one of length `len` at `i`.
pub open spec fn windows_from(d: Seq<u8>, len: int, i: int) -> Seq<Seq<u8>>
    decreases d.len() + 1 - len, d.len() + 1 - i,
{
    if len < 2 || len > d.len() {
        Seq::empty()
    } else if i < 0 || i + len > d.len() {
        windows_from(d, len + 1, 0)
    } else {
        seq![d.subrange(i, i + len)] + windows_from(d, len, i + 1)
    }
}

/// The texts of a list of strings.
pub open spec fn texts(v: Seq<String>) -> Seq<Seq<char>> {
    v.map_values(|x: String| x@)
}

/// Every stretch of `d` of two bytes or more.
pub open spec fn windows(d: Seq<u8>) -> Seq<Seq<u8>> {
    windows_from(d, 2, 0)
}

/// Every stretch reads as text.
pub open spec fn windows_decode(d: Seq<u8>) -> bool {
    forall|k: int| 0 <= k < windows(d).len() ==> valid_utf8(#[trigger] windows(d)[k])
}

/// The texts of the stretches of `d`.
pub open spec fn chopped(d: Seq<u8>) -> Seq<Seq<char>> {
    windows(d).map_values(|w: Seq<u8>| decode_utf8(w))
}

/// The texts of the stretches of the first record that occur in every
/// other record.
pub open spec fn shared(recs: Seq<RecordView>) -> Set<Seq<char>> {
    chopped(encode_utf8(recs[0].sequence)).to_set().filter(
        |w: Seq<char>| forall|k: int| 1 <= k < recs.len() ==> is_infix(w, #[trigger] recs[k].sequence),
    )
}

/// Chop sequence into substrings
pub fn chop_sequence(seq: &str) -> (r: Result<BTreeSet<String>>)
    ensures
        r is Ok <==> windows_decode(seq.spec_bytes()),
        r is Ok ==> r->Ok_0@.map(|x: String| x@) == chopped(seq.spec_bytes()).to_set(),
        r is Err ==> r->Err_0.spec_kind() == ErrorKind::IO,
{
    match chop(seq) {
        Ok(v) => Ok(string_set(v)),
        Err(e) => Err(e),
    }
}

/// The texts of every stretch of two bytes or more, shortest first.
fn chop(seq: &str) -> (r: Result<Vec<String>>)
    ensures
        r is Ok <==> windows_decode(seq.spec_bytes()),
        r is Ok ==> texts(r->Ok_0@) == chopped(seq.spec_bytes()),
        r is Err ==> r->Err_0.spec_kind() == ErrorKind::IO,
{
    let d = seq.as_bytes();
    let n = d.len();
    let mut out: Vec<String> = Vec::new();
    let ghost all = windows(d@);
    let mut len: usize = 1;
    while len < n
        invariant
            n == d@.len(),
            d@ == seq.spec_bytes(),
            all == windows(d@),
            1 <= len <= n || (len == 1 && n < 1),
            out@.len() + windows_from(d@, len + 1, 0).len() == all.len(),
            forall|k: int| 0 <= k < out@.len() ==> valid_utf8(#[trigger] all[k]),
            forall|k: int| 0 <= k < out@.len() ==> (#[trigger] out@[k])@ == decode_utf8(all[k]),
            forall|k: int|
                0 <= k < windows_from(d@, len + 1, 0).len() ==> #[trigger] windows_from(
                    d@,
                    len + 1,
                    0,
                )[k] == all[out@.len() + k],
        decreases n - len,
    {
        len += 1;
        let mut i: usize = 0;
        while i <= n - len
            invariant
                n == d@.len(),
                d@ == seq.spec_bytes(),
                all == windows(d@),
                2 <= len <= n,
                i <= n - len + 1,
                out@.len() + windows_from(d@, len as int, i as int).len() == all.len(),
                forall|k: int| 0 <= k < out@.len() ==> valid_utf8(#[trigger] all[k]),
                forall|k: int| 0 <= k < out@.len() ==> (#[trigger] out@[k])@ == decode_utf8(all[k]),
                forall|k: int|
                    0 <= k < windows_from(d@, len as int, i as int).len() ==> #[trigger] windows_from(
                        d@,
                        len as int,
                        i as int,
                    )[k] == all[out@.len() + k],
            decreases n - i,
        {
            let w = vstd::slice::slice_to_vec(vstd::slice::slice_subrange(d, i, i + len));
            proof {
                assert(w@ =~= d@.subrange(i as int, i + len));
                assert(windows_from(d@, len as int, i as int)[0] == w@);
            }
            match string_from_utf8(w) {
                Some(text) => out.push(text),
                None => {
                    proof {
                        assert(all[out@.len() as int] == w@);
                        assert(!windows_decode(d@));
                    }
                    return Err(Error::new(ErrorKind::IO, "invalid utf-8"));
                },
            }
            proof {
                assert forall|k: int|
                    0 <= k < windows_from(d@, len as int, i + 1).len() implies #[trigger] windows_from(
                    d@,
                    len as int,
                    i + 1,
                )[k] == all[out@.len() + k] by {
                    assert(windows_from(d@, len as int, i as int)[k + 1] == windows_from(
                        d@,
                        len as int,
                        i + 1,
                    )[k]);
                }
            }
            i += 1;
        }
    }
    proof {
        assert(texts(out@) =~= chopped(d@));
    }
    Ok(out)
}

/// Find all shared substrings
pub fn find_substrings(reader: Reader) -> (r: Result<BTreeSet<String>>)
    requires
        reader.wf(),
    ensures
        ({
            let c = collect_records(reader@);
            &&& r is Ok <==> (c is Ok && (c->Ok_0.len() == 0 || windows_decode(
                encode_utf8(c->Ok_0[0].sequence),
            )))
            &&& r is Ok ==> r->Ok_0@.map(|x: String| x@) == if c->Ok_0.len() == 0 {
                Set::empty()
            } else {
                shared(c->Ok_0)
            }
        }),
{
    let mut iter = reader.iter();
    let mut records: Vec<Record> = Vec::new();
    proof {
        iter.lemma_bounds();
    }
    loop
        invariant
            iter.wf(),
            0 <= iter@.reader.pos <= iter@.reader.data.len(),
            !iter@.done,
            collect_records(reader@) == match collect_records(iter@.reader) {
                Ok(rest) => Ok(records@.map_values(|x: Record| x@) + rest),
                Err(k) => Err(k),
            },
        ensures
            collect_records(reader@) == Ok::<Seq<RecordView>, ErrorKind>(
                records@.map_values(|x: Record| x@),
            ),
        decreases remaining(iter@.reader),
    {
        let ghost v = iter@.reader;
        let ghost before = records@.map_values(|x: Record| x@);
        match iter.next() {
            None => {
                proof {
                    assert(before + Seq::<RecordView>::empty() =~= before);
                }
                break;
            },
            Some(Ok(record)) => {
                proof {
                    lemma_iter_progress(v);
                }
                records.push(record);
                proof {
                    iter.lemma_bounds();
                    match collect_records(iter@.reader) {
                        Ok(rest) => {
                            assert(records@.map_values(|x: Record| x@) + rest =~= before + (seq![
                                record@,
                            ] + rest));
                        },
                        Err(k) => {},
                    }
                }
            },
            Some(Err(e)) => {
                return Err(e);
            },
        }
    }
    let ghost recs = records@.map_values(|x: Record| x@);
    if records.len() == 0 {
        proof {
            assert(texts(Seq::<String>::empty()).to_set() =~= Set::empty());
        }
        return Ok(string_set(Vec::new()));
    }
    let mut candidates = match chop(records[0].sequence.as_str()) {
        Ok(c) => c,
        Err(e) => return Err(e),
    };
    let ghost first = chopped(encode_utf8(recs[0].sequence)).to_set();
    let mut j: usize = 1;
    while j < records.len()
        invariant
            recs == records@.map_values(|x: Record| x@),
            1 <= j <= recs.len(),
            forall|w: Seq<char>|
                #[trigger] texts(candidates@).to_set().contains(w) <==> (first.contains(w)
                    && forall|k: int| 1 <= k < j ==> is_infix(w, #[trigger] recs[k].sequence)),
        decreases recs.len() - j,
    {
        let mut kept: Vec<String> = Vec::new();
        let mut t: usize = 0;
        while t < candidates.len()
            invariant
                recs == records@.map_values(|x: Record| x@),
                1 <= j < recs.len(),
                t <= candidates@.len(),
                forall|w: Seq<char>|
                    #[trigger] texts(kept@).to_set().contains(w) <==> (exists|u: int|
                        0 <= u < t && #[trigger] candidates@[u]@ == w && is_infix(
                            w,
                            recs[j as int].sequence,
                        )),
            decreases candidates@.len() - t,
        {
            let ghost before = texts(kept@);
            if contains_str(records[j].sequence.as_str(), candidates[t].as_str()) {
                kept.push(candidates[t].clone());
            }
            proof {
                let now = texts(kept@);
                assert forall|w: Seq<char>|
                    #[trigger] now.to_set().contains(w) <==> (exists|u: int|
                        0 <= u < t + 1 && #[trigger] candidates@[u]@ == w && is_infix(
                            w,
                            recs[j as int].sequence,
                        )) by {
                    if now.to_set().contains(w) {
                        let p = choose|p: int| 0 <= p < now.len() && now[p] == w;
                        if p < before.len() {
                            assert(before[p] == now[p]);
                            assert(before.to_set().contains(w));
                        } else {
                            assert(candidates@[t as int]@ == w);
                        }
                    }
                    if exists|u: int|
                        0 <= u < t + 1 && #[trigger] candidates@[u]@ == w && is_infix(
                            w,
                            recs[j as int].sequence,
                        ) {
                        let u = choose|u: int|
                            0 <= u < t + 1 && #[trigger] candidates@[u]@ == w && is_infix(
                                w,
                                recs[j as int].sequence,
                            );
                        if u < t {
                            assert(before.to_set().contains(w));
                            let p = choose|p: int| 0 <= p < before.len() && before[p] == w;
                            assert(now[p] == w);
                        } else {
                            assert(now[now.len() - 1] == w);
                        }
                    }
                }
            }
            t += 1;
        }
        proof {
            let old_set = texts(candidates@).to_set();
            assert forall|w: Seq<char>|
                #[trigger] texts(kept@).to_set().contains(w) <==> (first.contains(w)
                    && forall|k: int| 1 <= k < j + 1 ==> is_infix(w, #[trigger] recs[k].sequence)) by {
                if texts(kept@).to_set().contains(w) {
                    let u = choose|u: int|
                        0 <= u < candidates@.len() && #[trigger] candidates@[u]@ == w && is_infix(
                            w,
                            recs[j as int].sequence,
                        );
                    assert(texts(candidates@)[u] == w);
                    assert(old_set.contains(w));
                }
                if first.contains(w) && forall|k: int|
                    1 <= k < j + 1 ==> is_infix(w, #[trigger] recs[k].sequence) {
                    assert(old_set.contains(w));
                    let p = choose|p: int|
                        0 <= p < candidates@.len() && texts(candidates@)[p]
                            == w;
                    assert(candidates@[p]@ == w);
                    assert(is_infix(w, recs[j as int].sequence));
                }
            }
        }
        candidates = kept;
        j += 1;
    }
    proof {
        assert(texts(candidates@).to_set() =~= shared(recs));
    }
    Ok(string_set(candidates))
}

/// `a` comes before `b` in the byte-wise lexicographic order.
pub open spec fn lex_less(a: Seq<u8>, b: Seq<u8>) -> bool
    decreases a.len(),
{
    if a.len() == 0 {
        b.len() > 0
    } else if b.len() == 0 {
        false
    } else if a[0] != b[0] {
        a[0] < b[0]
    } else {
        lex_less(a.drop_first(), b.drop_first())
    }
}

/// The length in bytes of a text.
pub open spec fn byte_len(t: Seq<char>) -> nat {
    encode_utf8(t).len()
}

/// Relies on `BTreeSet::iter` over strings: every element once, in
/// increasing order, and strings order byte-wise lexicographically.
#[verifier::external_body]
fn sorted_strings(s: &BTreeSet<String>) -> (r: Vec<String>)
    ensures
        texts(r@).to_set() == s@.map(|x: String| x@),
        forall|i: int, j: int|
            0 <= i < j < r@.len() ==> lex_less(
                encode_utf8(#[trigger] r@[i]@),
                encode_utf8(#[trigger] r@[j]@),
            ),
{
    s.iter().cloned().collect()
}

/// Get longest substring: the longest text of the set, the first in order
/// among those of that length.
pub fn get_longest(substrings: BTreeSet<String>) -> (r: Option<String>)
    ensures
        r is None <==> substrings@.map(|x: String| x@).is_empty(),
        r matches Some(x) ==> {
            let all = substrings@.map(|x: String| x@);
            &&& all.contains(x@)
            &&& forall|y: Seq<char>| #[trigger] all.contains(y) ==> byte_len(y) <= byte_len(x@)
            &&& forall|y: Seq<char>|
                #[trigger] all.contains(y) && byte_len(y) == byte_len(x@) ==> y == x@ || lex_less(
                    encode_utf8(x@),
                    encode_utf8(y),
                )
        },
{
    let sorted = sorted_strings(&substrings);
    let ghost all = substrings@.map(|x: String| x@);
    let ghost t = texts(sorted@);
    if sorted.len() == 0 {
        proof {
            assert(t.to_set() =~= Set::empty());
        }
        return None;
    }
    let mut best: usize = 0;
    let mut best_len: usize = sorted[0].as_str().as_bytes().len();
    let mut i: usize = 1;
    while i < sorted.len()
        invariant
            t == texts(sorted@),
            1 <= i <= sorted@.len(),
            best < i,
            best_len == byte_len(sorted@[best as int]@),
            forall|k: int| 0 <= k < i ==> #[trigger] byte_len(sorted@[k]@) <= best_len,
            forall|k: int| 0 <= k < best ==> #[trigger] byte_len(sorted@[k]@) < best_len,
            forall|a: int, b: int|
                0 <= a < b < sorted@.len() ==> lex_less(
                    encode_utf8(#[trigger] sorted@[a]@),
                    encode_utf8(#[trigger] sorted@[b]@),
                ),
        decreases sorted@.len() - i,
    {
        let len = sorted[i].as_str().as_bytes().len();
        if len > best_len {
            best = i;
            best_len = len;
        }
        i += 1;
    }
    proof {
        assert forall|y: Seq<char>| #[trigger] all.contains(y) implies byte_len(y) <= best_len
            && (byte_len(y) == best_len ==> y == sorted@[best as int]@ || lex_less(
            encode_utf8(sorted@[best as int]@),
            encode_utf8(y),
        )) by {
            assert(t.to_set().contains(y));
            let k = choose|k: int| 0 <= k < t.len() && t[k] == y;
            assert(t[k] == sorted@[k]@);
            if k > best as int {
                assert(lex_less(encode_utf8(sorted@[best as int]@), encode_utf8(sorted@[k]@)));
            }
        }
        assert(t[best as int] == sorted@[best as int]@);
        assert(t.to_set().contains(sorted@[best as int]@));
    }
    Some(sorted[best].clone())
}

} // verus!
