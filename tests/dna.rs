use rosalind::common::dna::{complement, dna_to_protein, reverse_complement};
use rosalind::errors::ErrorKind;

#[test]
fn dna_test_reverse_complement() {
    let dna_string: &[u8] = b"AGTC";
    let expected: Vec<u8> = b"GACT".to_vec();
    assert_eq!(Ok(expected), reverse_complement(dna_string), "{}", "Should reverse complement");
}

#[test]
fn complement_of_each_base() {
    assert_eq!(Ok(b'T'), complement(&b'A'));
    assert_eq!(Ok(b'A'), complement(&b'T'));
    assert_eq!(Ok(b'G'), complement(&b'C'));
    assert_eq!(Ok(b'C'), complement(&b'G'));
}

#[test]
fn complement_rejects_other_symbols() {
    let err = complement(&b'Z').err().unwrap();
    assert_eq!(&ErrorKind::InvalidSymbol, err.kind());
    let err = reverse_complement(b"ACZT").err().unwrap();
    assert_eq!(&ErrorKind::InvalidSymbol, err.kind());
}

#[test]
fn reverse_complement_round_trip() {
    let s: &[u8] = b"GATTACACCGT";
    let once = reverse_complement(s).unwrap();
    assert_ne!(s.to_vec(), once);
    let twice = reverse_complement(&once).unwrap();
    assert_eq!(s.to_vec(), twice);
    assert_eq!(Ok(Vec::new()), reverse_complement(b""));
}

#[test]
fn reverse_complement_is_not_idempotent() {
    let s: &[u8] = b"AAC";
    let once = reverse_complement(s).unwrap();
    assert_eq!(b"GTT".to_vec(), once);
    assert_ne!(s.to_vec(), once);
}

#[test]
fn dna_codon_table() {
    assert_eq!(Ok(Some(b'M')), dna_to_protein(b"ATG"));
    assert_eq!(Ok(Some(b'W')), dna_to_protein(b"TGG"));
    assert_eq!(Ok(Some(b'L')), dna_to_protein(b"CTA"));
    assert_eq!(Ok(None), dna_to_protein(b"TGA"));
    assert_eq!(Ok(None), dna_to_protein(b"TAG"));
    let err = dna_to_protein(b"AUG").err().unwrap();
    assert_eq!(&ErrorKind::UnrecognizedCodon, err.kind());
    let err = dna_to_protein(b"AT").err().unwrap();
    assert_eq!(&ErrorKind::UnrecognizedCodon, err.kind());
    let err = dna_to_protein(b"ATGA").err().unwrap();
    assert_eq!(&ErrorKind::UnrecognizedCodon, err.kind());
}
