use rosalind::errors::ErrorKind;
use rosalind::problems::prot::{translate, translate_codon};

#[test]
fn test_translate() {
    let rna_string: &[u8] = b"AUGGCCAUGGCGCCCAGAACUGAGAUCAAUAGUACCCGUAUUAACGGGUGA";
    assert_eq!(
        Ok("MAMAPRTEINSTRING".to_owned()),
        translate(rna_string),
        "{}",
        "Sample Dataset from problem"
    );
}

#[test]
fn translation_stops_at_first_stop_codon() {
    assert_eq!(Ok("MY".to_owned()), translate(b"AUGUAUUAAAUG"));
    assert_eq!(Ok("MY".to_owned()), translate(b"AUGUAUUAAZZ"));
    assert_eq!(Ok(String::new()), translate(b""));
}

#[test]
fn translation_rejects_bad_codons() {
    let err = translate(b"AUGUA").err().unwrap();
    assert_eq!(&ErrorKind::UnrecognizedCodon, err.kind());
    let err = translate(b"ATG").err().unwrap();
    assert_eq!(&ErrorKind::UnrecognizedCodon, err.kind());
}

#[test]
fn rna_codon_table() {
    assert_eq!(Ok(Some(b'M')), translate_codon(b"AUG"));
    assert_eq!(Ok(Some(b'F')), translate_codon(b"UUU"));
    assert_eq!(Ok(None), translate_codon(b"UAA"));
    let err = translate_codon(b"AUT").err().unwrap();
    assert_eq!(&ErrorKind::UnrecognizedCodon, err.kind());
    let err = translate_codon(b"AU").err().unwrap();
    assert_eq!(&ErrorKind::UnrecognizedCodon, err.kind());
}
