use rosalind::errors::ErrorKind;
use rosalind::problems::grph::is_overlapped;
use rosalind::problems::mprt::{find_motifs, format_indices, get_id, is_motif, parse_input};
use rosalind::problems::orf::{find_starts, get_protein, run_workflow};
use rosalind::problems::revc::reverse_complement;
use rosalind::problems::rna::transcribe;
use rosalind::problems::subs::{find_pos, parse_input as subs_parse_input};
use rosalind::problems::tran::{classify, Counter, Kind};
use std::collections::BTreeSet;

#[test]
fn test_is_overlapped() {
    assert_eq!(true, is_overlapped("AAATAAA", "AAATTTT"), "{}", "Should return true");
    assert_eq!(false, is_overlapped("AAAAAA", "TTTTTT"), "{}", "Should return false");
}

#[test]
fn overlap_needs_three_symbols() {
    assert!(!is_overlapped("AA", "AAA"));
    assert!(is_overlapped("CGT", "CGT"));
}

#[test]
fn test_find_motifs() {
    let sequence = "MKNKFKTQEELVNHLKTVGFVFANSEIYNGLANAWDYGPLGVLLKNNLKNLWWKEFVTKQKDVVGLDSAIILNPLVWKASGHLDNFSDPLIDCKNCKARYRADKLIESFDENIHIAENSSNEEFAKVLNDYEISCPTCKQFNWTEIRHFNLMFKTYQGVIEDAKNVVYLRPETAQGIFVNFKNVQRSMRLHLPFGIAQIGKSFRNEITPGNFIFRTREFEQMEIEFFLKEESAYDIFDKYLNQIENWLVSACGLSLNNLRKHEHPKEELSHYSKKTIDFEYNFLHGFSELYGIAYRTNYDLSVHMNLSKKDLTYFDEQTKEKYVPHVIEPSVGVERLLYAILTEATFIEKLENDDERILMDLKYDLAPYKIAVMPLVNKLKDKAEEIYGKILDLNISATFDNSGSIGKRYRRQDAIGTIYCLTIDFDSLDDQQDPSFTIRERNSMAQKRIKLSELPLYLNQKAHEDFQRQCQK";
    assert_eq!(vec![85, 118, 142, 306, 395], find_motifs(sequence), "{}", "B5ZC00");
}

#[test]
fn test_is_motif() {
    assert_eq!(true, is_motif(&['N', 'A', 'S', 'A']), "{}", "Should return true");
    assert_eq!(false, is_motif(&['N', 'A', 'S', 'A', 'A']), "{}", "Should return false");
}

#[test]
fn motif_helpers() {
    assert!(!is_motif(&['N', 'P', 'S', 'A']));
    assert!(!is_motif(&['N', 'A', 'S', 'P']));
    assert!(is_motif(&['N', 'A', 'T', 'A']));
    assert_eq!(Vec::<usize>::new(), find_motifs("NAS"));
    assert_eq!(vec![3], find_motifs("NANSTA"));
    assert_eq!(vec![1], find_motifs("NASA"));
    assert_eq!("", format_indices(vec![]));
    assert_eq!("7", format_indices(vec![7]));
    assert_eq!("85 118 142", format_indices(vec![85, 118, 142]));
    assert_eq!("P01234", get_id("P01234_ABC_DEF"));
    assert_eq!("Q5", get_id("Q5"));
    assert_eq!(vec!["A", "B_C"], parse_input("A\nB_C"));
}

#[test]
fn test_run_workflow() {
    let dna = "AGCCATGTAGCTAACTCAGGTTACATGGGGATGACCCCGCGACTTGGATTAGAGTCTCTTTTGGAATAAGCCTGAATGATCCGAGTAGCATCTCAG";
    let expected = BTreeSet::from([
        "M".to_owned(),
        "MGMTPRLGLESLLE".to_owned(),
        "MLLGSFRLIPKETLIQVAGSSPCNLS".to_owned(),
        "MTPRLGLESLLE".to_owned(),
    ]);
    assert_eq!(Ok(expected), run_workflow(dna), "{}", "Sample Dataset");
}

#[test]
fn test_get_protein() {
    assert_eq!(
        Ok(vec![Some(b'M'), Some(b'Y'), None]),
        get_protein(b"AATGTATTAA", 1),
        "{}",
        "Should translate dna to protein"
    );
}

#[test]
fn get_protein_stops_at_first_stop() {
    assert_eq!(Ok(vec![Some(b'M'), Some(b'Y'), None]), get_protein(b"ATGTATTAAATG", 0));
    assert_eq!(Ok(vec![Some(b'M'), Some(b'Y')]), get_protein(b"ATGTATA", 0));
    let err = get_protein(b"ATGXYZ", 0).err().unwrap();
    assert_eq!(&ErrorKind::UnrecognizedCodon, err.kind());
}

#[test]
fn test_find_starts() {
    assert_eq!(Ok(vec![0, 6]), find_starts(b"ATGGCTATG"), "{}", "Should find starts");
}

#[test]
fn revc_test_reverse_complement() {
    assert_eq!(
        Ok("ACCGGGTTTT".to_owned()),
        reverse_complement("AAAACCCGGT".into()),
        "{}",
        "Sample Dataset from problem"
    );
}

#[test]
fn revc_rejects_other_symbols() {
    let err = reverse_complement("AACU".into()).err().unwrap();
    assert_eq!(&ErrorKind::InvalidSymbol, err.kind());
}

#[test]
fn test_transcribe() {
    assert_eq!(
        "GAUGGAACUUGACUACGUAAAUU".to_owned(),
        transcribe("GATGGAACTTGACTACGTAAATT".into()),
        "{}",
        "Sample Dataset from problem"
    );
    assert_eq!(String::new(), transcribe(String::new()), "{}", "Should not fail on empty string");
}

#[test]
fn test_find_pos() {
    assert_eq!(
        Ok(vec![2, 4, 10]),
        find_pos("GATATATGCATATACTT", "ATAT"),
        "{}",
        "Sample Dataset from problem"
    );
}

#[test]
fn find_pos_edge_cases() {
    assert_eq!(Ok(Vec::new()), find_pos("AC", "ACGT"));
    assert_eq!(Ok(vec![1, 2, 3]), find_pos("AAA", "A"));
    assert_eq!(Ok(("ACGT", "CG")), subs_parse_input("ACGT\nCG"));
    let err = subs_parse_input("ACGT").err().unwrap();
    assert_eq!(&ErrorKind::IO, err.kind());
}

#[test]
fn test_classify() {
    assert_eq!(Kind::Transition, classify(&b'A', &b'G'), "{}", "Transition");
    assert_eq!(Kind::Match, classify(&b'C', &b'C'), "{}", "Match");
    assert_eq!(Kind::Transversion, classify(&b'T', &b'G'), "{}", "Transversion");
}

#[test]
fn classify_unknown() {
    assert_eq!(Kind::Unknown, classify(&b'A', &b'N'));
    assert_eq!(Kind::Match, classify(&b'N', &b'N'));
}

#[test]
fn test_counter_count() {
    let mut counter = Counter::new();
    let actual = counter.count(b"AAGG", b"GAAT");
    assert_eq!(Ok(()), actual, "{}", "Example 1");
    assert_eq!(Counter { transition: 2, transversion: 1 }, counter, "{}", "Example 1");
}

#[test]
fn counter_count_length_mismatch() {
    let mut counter = Counter::new();
    let err = counter.count(b"AAG", b"GA").err().unwrap();
    assert_eq!(&ErrorKind::User, err.kind());
    assert_eq!(Counter { transition: 0, transversion: 0 }, counter);
}
