use rosalind::common::fasta::{get_name, get_sequence, is_name, Reader, Record};
use rosalind::errors::ErrorKind;

#[test]
fn test_reader_read() {
    let mut record = Record::new();
    let data: &[u8] = b">name\nACGT\nAAAA\n>name2\nAAGGTT\n";
    let mut reader = Reader::new(data);

    assert!(reader.read(&mut record).is_ok(), "{}", "Should read first record");
    assert_eq!(String::from("name"), record.name, "{}", "Should read the name correctly");
    assert_eq!(
        String::from("ACGTAAAA"),
        record.sequence,
        "{}",
        "Should read the sequence correctly"
    );

    let err = reader.read(&mut record).err().unwrap();
    assert_eq!(&ErrorKind::Eof, err.kind(), "{}", "Should read second record and return EOF");
    assert_eq!(String::from("name2"), record.name, "{}", "Should read the name correctly");
    assert_eq!(
        String::from("AAGGTT"),
        record.sequence,
        "{}",
        "Should read the sequence correctly"
    );
}

#[test]
fn test_is_name() {
    assert_eq!(false, is_name("abcdefg"), "{}", "Should return false if line is not a name line");
    assert_eq!(true, is_name(">abcdef"), "{}", "Should return true if line is a name line");
}

#[test]
fn test_get_name() {
    assert_eq!(String::from("abc"), get_name(">abc"), "{}", "Should parse name from name line");
    assert_eq!(
        String::new(),
        get_name("abc"),
        "{}",
        "Should return an empty string if not a name line"
    );
}

#[test]
fn test_get_sequence() {
    assert_eq!(
        String::from("ACGT"),
        get_sequence("ACGT\n"),
        "{}",
        "Should prase sequence from sequence line"
    );
}

#[test]
fn empty_stream_ends_at_once() {
    let mut record = Record::new();
    let mut reader = Reader::new(b"");
    let err = reader.read(&mut record).err().unwrap();
    assert_eq!(&ErrorKind::Eof, err.kind());
    let err = reader.read(&mut record).err().unwrap();
    assert_eq!(&ErrorKind::Eof, err.kind());
    assert!(Reader::new(b"").iter().next().is_none());
}

#[test]
fn stream_without_name_line_is_a_format_error() {
    let mut record = Record::new();
    let mut reader = Reader::new(b"ACGT\n");
    let err = reader.read(&mut record).err().unwrap();
    assert_eq!(&ErrorKind::Format, err.kind());
    assert_eq!(String::new(), record.name);
    assert_eq!(String::new(), record.sequence);
}

#[test]
fn blank_first_line_is_a_format_error() {
    let mut record = Record::new();
    let mut reader = Reader::new(b"\n>r1\nACGT\n");
    let err = reader.read(&mut record).err().unwrap();
    assert_eq!(&ErrorKind::Format, err.kind());
}

#[test]
fn two_records_then_end_of_input() {
    let mut record = Record::new();
    let mut reader = Reader::new(b">r1\nACGT\nAAAA\n>r2\nAAGGTT\n");
    assert!(reader.read(&mut record).is_ok());
    assert_eq!("r1", record.name);
    assert_eq!("ACGTAAAA", record.sequence);
    let err = reader.read(&mut record).err().unwrap();
    assert_eq!(&ErrorKind::Eof, err.kind());
    assert_eq!("r2", record.name);
    assert_eq!("AAGGTT", record.sequence);
    let mut again = Record::new();
    let err = reader.read(&mut again).err().unwrap();
    assert_eq!(&ErrorKind::Eof, err.kind());
    assert_eq!("", again.name);
}

#[test]
fn iteration_yields_every_record_in_order() {
    let data: &[u8] = b">a  \n AC \n\nGT\n> b\nTT\r\n>c\n";
    let mut records = Reader::new(data).iter();
    let first = records.next().unwrap().unwrap();
    assert_eq!("a", first.name);
    assert_eq!("ACGT", first.sequence);
    let second = records.next().unwrap().unwrap();
    assert_eq!("b", second.name);
    assert_eq!("TT", second.sequence);
    let third = records.next().unwrap().unwrap();
    assert_eq!("c", third.name);
    assert_eq!("", third.sequence);
    assert!(records.next().is_none());
    assert!(records.next().is_none());
}

#[test]
fn last_record_without_line_feed() {
    let mut records = Reader::new(b">x\nAC\nG").iter();
    let only = records.next().unwrap().unwrap();
    assert_eq!("x", only.name);
    assert_eq!("ACG", only.sequence);
    assert!(records.next().is_none());
}

#[test]
fn iteration_surfaces_format_errors() {
    let mut records = Reader::new(b"ACGT\n>x\nA\n").iter();
    let err = records.next().unwrap().err().unwrap();
    assert_eq!(&ErrorKind::Format, err.kind());
    assert!(records.next().is_none());
}

#[test]
fn iteration_ends_after_a_format_error() {
    let mut records = Reader::new(b"ACGT\n").iter();
    let err = records.next().unwrap().err().unwrap();
    assert_eq!(&ErrorKind::Format, err.kind());
    assert!(records.next().is_none());
    assert!(records.next().is_none());
}

#[test]
fn iteration_ends_after_an_undecodable_line() {
    let mut records = Reader::new(b">x\nA\xffC\n>y\nG\n").iter();
    let err = records.next().unwrap().err().unwrap();
    assert_eq!(&ErrorKind::IO, err.kind());
    assert!(records.next().is_none());
}

#[test]
fn undecodable_line_is_an_io_error() {
    let mut record = Record::new();
    let mut reader = Reader::new(b">x\nA\xffC\n>y\nG\n");
    let err = reader.read(&mut record).err().unwrap();
    assert_eq!(&ErrorKind::IO, err.kind());
    assert_eq!("x", record.name);
}
