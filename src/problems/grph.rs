//! Overlap graph of DNA strings: an edge where one string's end is the
//! next one's start.
use crate::common::fasta::{collect_records, Reader, Record, RecordView};
use crate::errors::{ErrorKind, Result};
use vstd::prelude::*;
use vstd::string::StringSliceAdditionalSpecFns;
use vstd::utf8::encode_utf8;

verus! {

/// The length of the overlap.
pub const OVERLAP: usize = 3;

/// The last three bytes of `a` are the first three of `b`.
pub open spec fn overlapped(a: Seq<u8>, b: Seq<u8>) -> bool {
    a.len() >= 3 && b.len() >= 3 && a.subrange(a.len() - 3, a.len() as int) == b.take(3)
}

/// An edge from record `i` to record `j`.
pub open spec fn is_edge(recs: Seq<RecordView>, i: int, j: int) -> bool {
    recs[i] != recs[j] && overlapped(encode_utf8(recs[i].sequence), encode_utf8(recs[j].sequence))
}

/// The edges from record `i` to the records from `j` on, as name pairs.
pub open spec fn edges_from(recs: Seq<RecordView>, i: int, j: int) -> Seq<(Seq<char>, Seq<char>)>
    decreases recs.len() - j,
{
    if j < 0 || j >= recs.len() {
        Seq::empty()
    } else if is_edge(recs, i, j) {
        seq![(recs[i].name, recs[j].name)] + edges_from(recs, i, j + 1)
    } else {
        edges_from(recs, i, j + 1)
    }
}

/// The edges from the records from `i` on, record by record.
pub open spec fn edges(recs: Seq<RecordView>, i: int) -> Seq<(Seq<char>, Seq<char>)>
    decreases recs.len() - i,
{
    if i < 0 || i >= recs.len() {
        Seq::empty()
    } else {
        edges_from(recs, i, 0) + edges(recs, i + 1)
    }
}

/// Build graph: the edges between the records of `reader`, as pairs of
/// names, in the order of the records.
pub fn build_graph(reader: Reader) -> (r: Result<Vec<(String, String)>>)
    requires
        reader.wf(),
    ensures
        r is Ok <==> collect_records(reader@) is Ok,
        r is Ok ==> r->Ok_0@.map_values(|e: (String, String)| (e.0@, e.1@)) == edges(
            collect_records(reader@)->Ok_0,
            0,
        ),
        r is Err ==> collect_records(reader@) == Err::<Seq<RecordView>, _>(r->Err_0.spec_kind()),
{
    let mut iter = reader.iter();
    let mut records: Vec<Record> = Vec::new();
    proof {
        iter.lemma_bounds();
    }
    loop
        invariant
            iter.wf(),
            0 <= iter@.reader.pos <= iter@.reader.data.len(),
            !iter@.done,
            collect_records(reader@) == match collect_records(iter@.reader) {
                Ok(rest) => Ok(records@.map_values(|x: Record| x@) + rest),
                Err(k) => Err(k),
            },
        ensures
            collect_records(reader@) == Ok::<Seq<RecordView>, ErrorKind>(
                records@.map_values(|x: Record| x@),
            ),
        decreases crate::common::fasta::remaining(iter@.reader),
    {
        let ghost v = iter@.reader;
        let ghost before = records@.map_values(|x: Record| x@);
        match iter.next() {
            None => {
                proof {
                    assert(before + Seq::<RecordView>::empty() =~= before);
                }
                break;
            },
            Some(Ok(record)) => {
                proof {
                    crate::common::fasta::lemma_iter_progress(v);
                }
                records.push(record);
                proof {
                    iter.lemma_bounds();
                    match collect_records(iter@.reader) {
                        Ok(rest) => {
                            assert(records@.map_values(|x: Record| x@) + rest =~= before + (seq![
                                record@,
                            ] + rest));
                        },
                        Err(k) => {},
                    }
                }
            },
            Some(Err(e)) => {
                return Err(e);
            },
        }
    }
    let ghost recs = records@.map_values(|x: Record| x@);
    let n = records.len();
    let mut out: Vec<(String, String)> = Vec::new();
    let mut i: usize = 0;
    while i < n
        invariant
            n == records@.len(),
            recs == records@.map_values(|x: Record| x@),
            i <= n,
            out@.map_values(|e: (String, String)| (e.0@, e.1@)) + edges(recs, i as int) == edges(
                recs,
                0,
            ),
        decreases n - i,
    {
        let mut j: usize = 0;
        while j < n
            invariant
                n == records@.len(),
                recs == records@.map_values(|x: Record| x@),
                i < n,
                j <= n,
                out@.map_values(|e: (String, String)| (e.0@, e.1@)) + edges_from(
                    recs,
                    i as int,
                    j as int,
                ) + edges(recs, i + 1) == edges(recs, 0),
            decreases n - j,
        {
            let seq1 = &records[i];
            let seq2 = &records[j];
            let same = seq1.name == seq2.name && seq1.sequence == seq2.sequence;
            let ghost before = out@.map_values(|e: (String, String)| (e.0@, e.1@));
            if !same && is_overlapped(seq1.sequence.as_str(), seq2.sequence.as_str()) {
                out.push((seq1.name.clone(), seq2.name.clone()));
                proof {
                    assert(out@.map_values(|e: (String, String)| (e.0@, e.1@)) =~= before.push(
                        (recs[i as int].name, recs[j as int].name),
                    ));
                    assert(before.push((recs[i as int].name, recs[j as int].name)) + edges_from(
                        recs,
                        i as int,
                        j + 1,
                    ) =~= before + edges_from(recs, i as int, j as int));
                }
            }
            j += 1;
        }
        proof {
            assert(edges(recs, i as int) == edges_from(recs, i as int, 0) + edges(recs, i + 1));
            assert(out@.map_values(|e: (String, String)| (e.0@, e.1@)) + edges_from(
                recs,
                i as int,
                n as int,
            ) =~= out@.map_values(|e: (String, String)| (e.0@, e.1@)));
        }
        i += 1;
    }
    proof {
        assert(out@.map_values(|e: (String, String)| (e.0@, e.1@)) + edges(recs, n as int)
            =~= out@.map_values(|e: (String, String)| (e.0@, e.1@)));
    }
    Ok(out)
}

/// Checks to see if the two sequences are overlapped
///
/// The two sequences are considered overlapped if the last 3 bases of seq1 is equal to the first 3
/// bases of seq2.
///
pub fn is_overlapped(seq1: &str, seq2: &str) -> (r: bool)
    ensures
        r == overlapped(seq1.spec_bytes(), seq2.spec_bytes()),
{
    let a = seq1.as_bytes();
    let b = seq2.as_bytes();
    if a.len() < OVERLAP || b.len() < OVERLAP {
        return false;
    }
    let al = a.len();
    let start = al - OVERLAP;
    let mut k: usize = 0;
    while k < OVERLAP
        invariant
            a@ == seq1.spec_bytes(),
            b@ == seq2.spec_bytes(),
            a@.len() >= 3,
            b@.len() >= 3,
            al == a@.len(),
            start == a@.len() - 3,
            k <= 3,
            forall|t: int| 0 <= t < k ==> a@[start + t] == b@[t],
        decreases 3 - k,
    {
        if a[start + k] != b[k] {
            proof {
                assert(a@.subrange(a@.len() - 3, a@.len() as int)[k as int] != b@.take(3)[k as int]);
            }
            return false;
        }
        k += 1;
    }
    proof {
        assert(a@.subrange(a@.len() - 3, a@.len() as int) =~= b@.take(3));
    }
    true
}

} // verus!
