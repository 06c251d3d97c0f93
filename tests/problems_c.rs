use rosalind::common::fasta::Reader;
use rosalind::errors::ErrorKind;
use rosalind::problems::dna::{count_bases, format_output};
use rosalind::problems::grph::build_graph;
use rosalind::problems::iev::parse_input as iev_parse_input;
use rosalind::problems::iprb::{pairs, parse_input as iprb_parse_input, AllelePairs};
use rosalind::problems::fib::Population;
use rosalind::problems::lcsm::{chop_sequence, find_substrings, get_longest};
use rosalind::problems::lexf::parse_input as lexf_parse_input;
use rosalind::problems::lgis::{
    format_output as lgis_format_output, get_order, longest, order_to_result,
    parse_input as lgis_parse_input,
};
use rosalind::problems::lia::parse_input as lia_parse_input;
use rosalind::problems::perm::{format_line, permutations};
use rosalind::problems::revp::{locate, Output};
use rosalind::problems::splc::{splice, splice_and_translate};
use std::collections::{BTreeMap, BTreeSet};

#[test]
fn test_count_bases() {
    let cases: [(&str, &str, BTreeMap<char, usize>); 3] = [
        (
            "Sample Dataset from problem",
            "AGCTTTTCATTCTGACTGCAACGGGCAATATGTCTCTGTGTGGATTAAAAAAAGAGTGTCTGATAGCAGC",
            BTreeMap::from([('A', 20), ('C', 12), ('G', 17), ('T', 21)]),
        ),
        (
            "Should ignore non DNA nucleotides",
            "ZZZZXagct",
            BTreeMap::from([('A', 0), ('C', 0), ('G', 0), ('T', 0)]),
        ),
        (
            "Should not fail on empty string",
            "",
            BTreeMap::from([('A', 0), ('C', 0), ('G', 0), ('T', 0)]),
        ),
    ];
    for (name, dna_string, expected) in cases {
        assert_eq!(expected, count_bases(dna_string), "{}", name);
    }
}

#[test]
fn test_format_output() {
    assert_eq!(
        "123 3 42 10".to_owned(),
        format_output(BTreeMap::from([('A', 123), ('C', 3), ('G', 42), ('T', 10)])),
        "{}",
        "Should format counter"
    );
    assert_eq!(
        "0 0 0 0".to_owned(),
        format_output(BTreeMap::new()),
        "{}",
        "Should format an empty counter"
    );
}

#[test]
fn test_splice_and_translate() {
    let dna = "ATGGTCTACATAGCTGACAAACAGCACGTAGCAATCGGTCGAATCTCGAGAGGCATATGGTCACATGATCGGTCGAGCGTGTTTCAAAGTTTGCGCCTAG";
    assert_eq!(
        Ok("MVYIADKQHVASREAYGHMFKVCA".to_owned()),
        splice_and_translate(dna, &["ATCGGTCGAA", "ATCGGTCGAGCGTGT"]),
        "{}",
        "Sample Dataset"
    );
}

#[test]
fn test_splice() {
    assert_eq!(
        "CEF".to_owned(),
        splice("ABCABCDEF", &["AB", "CD"]),
        "{}",
        "Should remove all substrings"
    );
}

#[test]
fn dna_translation_stops_at_first_stop_codon() {
    // ATG TAT TAA ATG: two amino acids, from the first two codons only.
    assert_eq!(Ok("MY".to_owned()), splice_and_translate("ATGTATTAAATG", &[]));
    assert_eq!(Ok("MY".to_owned()), splice_and_translate("ATGTATTAAQQQ", &[]));
    assert_eq!(Ok("M".to_owned()), splice_and_translate("ATGTA", &[]));
    let err = splice_and_translate("ATGQQQ", &[]).err().unwrap();
    assert_eq!(&ErrorKind::UnrecognizedCodon, err.kind());
    assert_eq!("", splice("AAAA", &["AA"]));
    assert_eq!("A", splice("AAA", &["AA"]));
}

#[test]
fn test_locate() {
    let expected = vec![
        Output { position: 5, length: 4 },
        Output { position: 7, length: 4 },
        Output { position: 17, length: 4 },
        Output { position: 18, length: 4 },
        Output { position: 21, length: 4 },
        Output { position: 4, length: 6 },
        Output { position: 6, length: 6 },
        Output { position: 20, length: 6 },
    ];
    assert_eq!(Ok(expected), locate("TCAATGCATGCGGGTCTATATGCAT"), "{}", "Sample Dataset");
}

#[test]
fn locate_edge_cases() {
    assert_eq!(Ok(vec![]), locate("ACG"));
    assert_eq!(Ok(vec![Output::new(1, 4)]), locate("ACGT"));
    let err = locate("ACGTN").err().unwrap();
    assert_eq!(&ErrorKind::InvalidSymbol, err.kind());
}

#[test]
fn test_chop_sequence() {
    let expected = BTreeSet::from([
        "AA".to_owned(),
        "AC".to_owned(),
        "AAA".to_owned(),
        "AAC".to_owned(),
        "AAAC".to_owned(),
    ]);
    assert_eq!(Ok(expected), chop_sequence("AAAC"), "{}", "Should chop up sequences");
}

#[test]
fn chop_short_sequences() {
    assert_eq!(Ok(BTreeSet::new()), chop_sequence("A"));
    assert_eq!(Ok(BTreeSet::new()), chop_sequence(""));
}

#[test]
fn shared_substrings_of_records() {
    let data: &[u8] = b">a\nGATTACA\n>b\nTAGACCA\n>c\nATACA\n";
    let shared = find_substrings(Reader::new(data)).unwrap();
    let expected = BTreeSet::from(["AC".to_owned(), "CA".to_owned(), "TA".to_owned()]);
    assert_eq!(expected, shared);
    assert_eq!(Ok(BTreeSet::new()), find_substrings(Reader::new(b"")));
    let err = find_substrings(Reader::new(b"GATTACA\n")).err().unwrap();
    assert_eq!(&ErrorKind::Format, err.kind());
}

#[test]
fn overlap_graph_of_records() {
    let data: &[u8] = b">Rosalind_0498\nAAATAAA\n>Rosalind_2391\nAAATTTT\n>Rosalind_2323\nTTTTCCC\n>Rosalind_0442\nAAATCCC\n>Rosalind_5013\nGGGTGGG\n";
    let edges = build_graph(Reader::new(data)).unwrap();
    let expected: Vec<(String, String)> = vec![
        ("Rosalind_0498".to_owned(), "Rosalind_2391".to_owned()),
        ("Rosalind_0498".to_owned(), "Rosalind_0442".to_owned()),
        ("Rosalind_2391".to_owned(), "Rosalind_2323".to_owned()),
    ];
    assert_eq!(expected, edges);
}

#[test]
fn test_longest() {
    let cases: [(&str, &[i64], fn(i64, i64) -> bool, Vec<i64>); 2] = [
        ("Should return the longest increasing", &[5, 1, 4, 2, 3], |l, r| l < r, vec![1, 2, 3]),
        ("Should return the longest decreasing", &[5, 1, 4, 2, 3], |l, r| l > r, vec![5, 4, 2]),
    ];
    for (name, pi, comp_func, expected) in cases {
        assert_eq!(expected, longest(pi, comp_func), "{}", name);
    }
}

#[test]
fn test_get_order() {
    let cases: [(&str, &[i64], fn(i64, i64) -> bool, Vec<usize>); 2] = [
        ("Should return order for ascending", &[5, 1, 4, 2, 3], |l, r| l < r, vec![0, 2, 0, 1, 0]),
        ("Should return order for descending", &[5, 1, 4, 2, 3], |l, r| l > r, vec![2, 0, 1, 0, 0]),
    ];
    for (name, pi, comp_func, expected) in cases {
        assert_eq!(expected, get_order(pi, &comp_func), "{}", name);
    }
}

#[test]
fn test_order_to_result() {
    assert_eq!(
        vec![1, 2, 3],
        order_to_result(&[5, 1, 4, 2, 3], vec![0, 2, 0, 1, 0]),
        "{}",
        "Should return ascending"
    );
    assert_eq!(
        vec![5, 4, 2],
        order_to_result(&[5, 1, 4, 2, 3], vec![2, 0, 1, 0, 0]),
        "{}",
        "Should return descending"
    );
}

#[test]
fn lgis_input_and_output() {
    assert_eq!(Ok(vec![5, 1, 4, 2, 3]), lgis_parse_input("5\n5 1 4 2 3".into()));
    assert!(lgis_parse_input("5 1 4 2 3".into()).is_err());
    assert!(lgis_parse_input("2\n1 x".into()).is_err());
    assert_eq!("1 -2 3", lgis_format_output(&[1, -2, 3]));
    assert_eq!("", lgis_format_output(&[]));
}

#[test]
fn test_pairs() {
    let expected = vec![
        (AllelePairs::HomoDom, AllelePairs::HomoRec),
        (AllelePairs::HomoDom, AllelePairs::Hetero),
        (AllelePairs::HomoRec, AllelePairs::Hetero),
    ];
    assert_eq!(expected, pairs(1, 1, 1), "{}", "Should return the the correct pairs");
}

#[test]
fn pairs_counts() {
    assert_eq!(15, pairs(2, 2, 2).len());
    assert_eq!(Vec::<(AllelePairs, AllelePairs)>::new(), pairs(1, 0, 0));
    assert_eq!(vec![(AllelePairs::Hetero, AllelePairs::Hetero)], pairs(0, 2, 0));
    assert_eq!(Ok((2, 2, 2)), iprb_parse_input("2 2 2".into()));
    assert!(iprb_parse_input("2 2".into()).is_err());
}

#[test]
fn test_permutations() {
    let expected = vec![
        vec![1, 2, 3],
        vec![1, 3, 2],
        vec![2, 1, 3],
        vec![2, 3, 1],
        vec![3, 1, 2],
        vec![3, 2, 1],
    ];
    assert_eq!(expected, permutations(3), "{}", "Sample Dataset");
}

#[test]
fn permutation_lines() {
    assert_eq!(vec![Vec::<usize>::new()], permutations(0));
    assert_eq!(vec![vec![1]], permutations(1));
    assert_eq!("3 1 2", format_line(&[3, 1, 2]));
    assert_eq!("", format_line(&[]));
}

#[test]
fn six_and_two_value_inputs() {
    assert_eq!(Ok([1, 0, 0, 1, 0, 1]), iev_parse_input("1 0 0 1 0 1".into()));
    let err = iev_parse_input("1 0 0 1 0".into()).err().unwrap();
    assert_eq!(&ErrorKind::IO, err.kind());
    assert!(iev_parse_input("1 0 0 1 0 x".into()).is_err());
    assert_eq!(Ok((2, 1)), lia_parse_input("2 1".into()));
    assert!(lia_parse_input("2 -1".into()).is_err());
    assert!(lia_parse_input("4294967296 1".into()).is_err());
}

#[test]
fn longest_shared_substring() {
    let set = BTreeSet::from(["AC".to_owned(), "CA".to_owned(), "GAT".to_owned(), "TAC".to_owned()]);
    assert_eq!(Some("GAT".to_owned()), get_longest(set));
    let set = BTreeSet::from(["TA".to_owned(), "CA".to_owned()]);
    assert_eq!(Some("CA".to_owned()), get_longest(set));
    assert_eq!(None, get_longest(BTreeSet::new()));
}

#[test]
fn lexf_input() {
    assert_eq!(Ok((b"ACGT".to_vec(), 2)), lexf_parse_input("A C G T\n2".into()));
    assert!(lexf_parse_input("A C G T".into()).is_err());
    assert!(lexf_parse_input("A C\nx".into()).is_err());
}

#[test]
fn population_overflow_check() {
    assert!(Population::new(3).can_advance_n(5));
    assert!(Population::new(5).can_advance_n(40));
    assert!(!Population::new(i64::MAX).can_advance_n(4));
    assert!(!Population::new(1).can_advance_n(i64::MIN));
}
