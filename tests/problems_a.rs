use rosalind::errors::ErrorKind;
use rosalind::problems::cons::Counter;
use rosalind::problems::fib::{parse_input as fib_parse_input, Population};
use rosalind::problems::fibd::{parse_input as fibd_parse_input, simulate};
use rosalind::problems::hamm::{hamming_distance, parse_input as hamm_parse_input};
use rosalind::problems::lexf::permute;
use rosalind::problems::mrna::{rna_possbilities, total};
use std::collections::BTreeMap;

#[test]
fn test_counter_update() {
    let mut counter = Counter::new(3);
    counter.update("AGC");
    assert_eq!(
        Counter {
            counter: BTreeMap::from([
                (b'A', vec![1, 0, 0]),
                (b'C', vec![0, 0, 1]),
                (b'G', vec![0, 1, 0]),
                (b'T', vec![0, 0, 0]),
            ]),
            sequence_length: 3,
        },
        counter,
    );
}

#[test]
fn test_counter_consensus() {
    let counter = Counter {
        counter: BTreeMap::from([
            (b'A', vec![5, 1, 0, 0, 5, 5, 0, 0]),
            (b'C', vec![0, 0, 1, 4, 2, 0, 6, 1]),
            (b'G', vec![1, 1, 6, 3, 0, 1, 0, 0]),
            (b'T', vec![1, 5, 0, 0, 0, 1, 1, 6]),
        ]),
        sequence_length: 8,
    };
    assert_eq!(counter.consensus(), Ok("ATGCAACT".to_owned()));
}

#[test]
fn counter_profile_output() {
    let mut counter = Counter::new(4);
    counter.update("ATGC");
    counter.update("ATTC");
    counter.update("GTTA");
    assert_eq!(
        Ok("ATTC\nA: 2 0 0 1\nC: 0 0 0 2\nG: 1 0 1 0\nT: 0 3 2 0".to_owned()),
        counter.format_output()
    );
}

#[test]
fn consensus_ties_and_empty_columns() {
    let mut counter = Counter::new(3);
    counter.update("ACG");
    counter.update("TGG");
    assert_eq!(Ok("ACG".to_owned()), counter.consensus());
    assert_eq!(Ok("AAA".to_owned()), Counter::new(3).consensus());
}

#[test]
fn test_parse_input() {
    assert_eq!(Ok((5, 32)), fib_parse_input("5 32".into()), "{}", "Should parse input");
    assert!(
        fib_parse_input("12 32 41".into()).is_err(),
        "{}",
        "Should return an error if there are too many input variables"
    );
    assert!(
        fib_parse_input("a 32".into()).is_err(),
        "{}",
        "Should return an error if the variables are not integers"
    );
}

#[test]
fn fib_parse_input_signs_and_errors() {
    assert_eq!(Ok((-5, 3)), fib_parse_input("-5 +3".into()));
    let err = fib_parse_input("5  3".into()).err().unwrap();
    assert_eq!(&ErrorKind::IO, err.kind());
    assert!(fib_parse_input("99999999999999999999 1".into()).is_err());
}

#[test]
fn test_population_advance_n() {
    let mut population = Population::new(3);
    population.advance_n(5);
    assert_eq!(19, population.total(), "{}", "Sample Dataset from problem");
}

#[test]
fn population_single_steps() {
    let mut population = Population::new(1);
    population.advance_n(1);
    assert_eq!(1, population.total());
    population.advance();
    assert_eq!((0, 1), (population.newborn, population.reproductive));
    population.advance();
    assert_eq!((1, 1), (population.newborn, population.reproductive));
}

#[test]
fn test_simulate() {
    assert_eq!(4, simulate(6, 3), "{}", "Sample Dataset");
}

#[test]
fn simulate_small_months() {
    assert_eq!(1, simulate(1, 3));
    assert_eq!(1, simulate(2, 3));
    assert_eq!(2, simulate(3, 3));
    assert_eq!(2, simulate(4, 3));
    assert_eq!(3, simulate(5, 3));
}

#[test]
fn fibd_parse_input_cases() {
    assert_eq!(Ok((6, 3)), fibd_parse_input("6 3".into()));
    assert!(fibd_parse_input("-6 3".into()).is_err());
    assert!(fibd_parse_input("6".into()).is_err());
}

#[test]
fn test_hamming_distance() {
    assert_eq!(
        Ok(7),
        hamming_distance("GAGCCTACTAACGGGAT", "CATCGTAATGACGGCCT"),
        "{}",
        "Sample Dataset form problem"
    );
    assert!(
        hamming_distance("AGG", "ACCC").is_err(),
        "{}",
        "Should return an error if sequences are not the same size"
    );
}

#[test]
fn hamm_parse_input_cases() {
    assert_eq!(
        Ok(("AC".to_owned(), "GT".to_owned())),
        hamm_parse_input("AC\nGT".into())
    );
    let err = hamm_parse_input("AC\nGT\nAA".into()).err().unwrap();
    assert_eq!(&ErrorKind::IO, err.kind());
}

#[test]
fn test_permute() {
    let expected: Vec<String> = vec![
        "AA", "AC", "AG", "AT", "CA", "CC", "CG", "CT", "GA", "GC", "GG", "GT", "TA", "TC", "TG",
        "TT",
    ]
    .into_iter()
    .map(|s| s.to_owned())
    .collect();
    assert_eq!(Ok(expected), permute(b"ACGT", 2), "{}", "Sample Dataset");
}

#[test]
fn permute_lengths() {
    assert_eq!(Ok(vec!["B".to_owned(), "A".to_owned()]), permute(b"BA", 1));
    assert_eq!(8, permute(b"XY", 3).unwrap().len());
    assert_eq!(Ok(Vec::<String>::new()), permute(b"", 2));
    let err = permute(&[0xff], 1).err().unwrap();
    assert_eq!(&ErrorKind::IO, err.kind());
}

#[test]
fn test_total() {
    assert_eq!(Ok(12), total("MA"), "{}", "Sample Dataset");
}

#[test]
fn total_edge_cases() {
    assert_eq!(Ok(0), total(""));
    assert_eq!(Ok(3), total("M"));
    assert_eq!(Ok(18), total("L"));
    let err = total("MZ").err().unwrap();
    assert_eq!(&ErrorKind::IO, err.kind());
    let err = rna_possbilities(&b'B').err().unwrap();
    assert_eq!(&ErrorKind::IO, err.kind());
    assert_eq!(Ok(6), rna_possbilities(&b'S'));
    assert!(rna_possbilities(&b'*').is_err());
    // 6^8 = 1679616, reduced to 679616, then times 6 is 4077696 -> 77696; times 3.
    assert_eq!(Ok(77696 * 3), total("LLLLLLLLL"));
}
